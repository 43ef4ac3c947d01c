//! The settings window's command list and its autostart registration.

use vstd::prelude::*;
use crate::app::{
    index_group, index_program, holds_group, holds_program, switched, AppMode, KeykoffApp,
};
use crate::config::{name_of, pruned_entries, Entry, EntryView};
use crate::editing::same_but_entries_and_error;
use crate::text::{chars_of, append_str, decimal, push_decimal, string_from_chars};

verus! {

/// The buttons of the command list.
#[derive(PartialEq, Eq, Structural, Clone, Copy, Debug)]
pub enum ListAction {
    NewProgram,
    NewGroup,
    Edit(usize),
    Delete(usize),
}

/// The summary shown beside an entry in the command list.
pub open spec fn summary_spec(e: EntryView) -> Seq<char> {
    match e {
        EntryView::Program(p) => "-> "@ + p.executable,
        EntryView::Group(g) => if g.members.len() == 0 {
            "-> (empty)"@
        } else if g.members.len() == 1 {
            "-> "@ + decimal(1) + " member"@
        } else {
            "-> "@ + decimal(g.members.len()) + " members"@
        },
    }
}

/// The summary shown beside an entry: a program's executable, or how many
/// members a group has.
pub fn entry_summary(entry: &Entry) -> (r: String)
    ensures
        r@ == summary_spec(entry@),
{
    match entry {
        Entry::Program(p) => append_str("-> ", p.executable.as_str()),
        Entry::Group(g) => {
            if g.members.len() == 0 {
                "-> (empty)".to_owned()
            } else {
                let mut s = "-> ".to_owned();
                push_decimal(&mut s, g.members.len());
                let suffix = if g.members.len() == 1 {
                    " member"
                } else {
                    " members"
                };
                let r = append_str(s.as_str(), suffix);
                assert(g.members.deep_view().len() == g.members@.len());
                assert(r@ =~= summary_spec(entry@));
                r
            }
        },
    }
}

/// `before` with the program dialog's fields of `after`, no error and no
/// origin to return to.
pub open spec fn with_program_fields(before: KeykoffApp, after: KeykoffApp) -> KeykoffApp {
    KeykoffApp {
        dialog_name: after.dialog_name,
        dialog_caption: after.dialog_caption,
        dialog_executable: after.dialog_executable,
        dialog_parameters: after.dialog_parameters,
        dialog_working_directory: after.dialog_working_directory,
        dialog_error: None,
        dialog_return_to_idle: false,
        ..before
    }
}

/// `before` with the group dialog's fields of `after`, the first suggestion
/// highlighted, no error and no origin to return to.
pub open spec fn with_group_fields(before: KeykoffApp, after: KeykoffApp) -> KeykoffApp {
    KeykoffApp {
        dialog_name: after.dialog_name,
        dialog_caption: after.dialog_caption,
        dialog_members: after.dialog_members,
        dialog_member_input: after.dialog_member_input,
        dialog_suggestion_index: 0,
        dialog_error: None,
        dialog_return_to_idle: false,
        ..before
    }
}

impl KeykoffApp {
    /// Carries out a command-list button: open an empty program or group
    /// dialog, open an entry's dialog, or delete an entry (removing its name
    /// from every group). Returns whether the entries changed, in which case
    /// the caller writes the settings.
    pub fn apply_list_action(&mut self, action: ListAction) -> (changed: bool)
        requires
            match action {
                ListAction::Delete(i) => i < old(self).config.entries@.len(),
                _ => true,
            },
        ensures
            changed == action is Delete,
            match action {
                ListAction::NewProgram => {
                    &&& final(self).dialog_name@.len() == 0
                    &&& final(self).dialog_caption@.len() == 0
                    &&& final(self).dialog_executable@.len() == 0
                    &&& final(self).dialog_parameters@.len() == 0
                    &&& final(self).dialog_working_directory@.len() == 0
                    &&& switched(with_program_fields(*old(self), *final(self)), *final(self), AppMode::NewConfig)
                },
                ListAction::NewGroup => {
                    &&& final(self).dialog_name@.len() == 0
                    &&& final(self).dialog_caption@.len() == 0
                    &&& final(self).dialog_members@.len() == 0
                    &&& final(self).dialog_member_input@.len() == 0
                    &&& switched(with_group_fields(*old(self), *final(self)), *final(self), AppMode::NewGroup)
                },
                ListAction::Edit(i) => match index_program(old(self).config.entries.deep_view(), i as int) {
                    Some(p) => {
                        &&& holds_program(*final(self), p)
                        &&& switched(
                            with_program_fields(*old(self), *final(self)),
                            *final(self),
                            AppMode::EditConfig { index: i },
                        )
                    },
                    None => match index_group(old(self).config.entries.deep_view(), i as int) {
                        Some(g) => {
                            &&& holds_group(*final(self), g)
                            &&& switched(
                                with_group_fields(*old(self), *final(self)),
                                *final(self),
                                AppMode::EditGroup { index: i },
                            )
                        },
                        None => *final(self) == *old(self),
                    },
                },
                ListAction::Delete(i) => {
                    &&& final(self).config.entries.deep_view() == pruned_entries(
                        old(self).config.entries.deep_view().remove(i as int),
                        name_of(old(self).config.entries.deep_view()[i as int]),
                    )
                    &&& same_but_entries_and_error(*final(self), *old(self))
                    &&& final(self).dialog_error == old(self).dialog_error
                },
            },
    {
        match action {
            ListAction::NewProgram => {
                self.clear_dialog_fields();
                self.set_mode(AppMode::NewConfig);
                false
            },
            ListAction::NewGroup => {
                self.clear_group_dialog_fields();
                self.set_mode(AppMode::NewGroup);
                false
            },
            ListAction::Edit(i) => {
                if i < self.config.entries.len() {
                    let is_program = match &self.config.entries[i] {
                        Entry::Program(_) => true,
                        Entry::Group(_) => false,
                    };
                    if is_program {
                        self.populate_program_dialog_from_index(i);
                        self.set_mode(AppMode::EditConfig { index: i });
                    } else {
                        self.populate_group_dialog_from_index(i);
                        self.set_mode(AppMode::EditGroup { index: i });
                    }
                }
                false
            },
            ListAction::Delete(i) => {
                self.delete_entry(i);
                true
            },
        }
    }
}

/// The prefix that marks a Windows extended-length path.
pub open spec fn extended_prefix() -> Seq<char> {
    seq!['\\', '\\', '?', '\\']
}

/// A path without its extended-length prefix, when it has one.
pub open spec fn strip_extended_prefix_spec(path: Seq<char>) -> Seq<char> {
    if path.len() >= 4 && path.take(4) == extended_prefix() {
        path.skip(4)
    } else {
        path
    }
}

/// Removes the extended-length prefix `\\?\` that canonicalizing a path adds
/// on Windows, so the path can be stored for autostart.
pub fn strip_extended_prefix(path: &str) -> (r: String)
    ensures
        r@ == strip_extended_prefix_spec(path@),
{
    let cs = chars_of(path);
    let n = cs.len();
    if n >= 4 && cs[0] == '\\' && cs[1] == '\\' && cs[2] == '?' && cs[3] == '\\' {
        assert(path@.take(4) =~= extended_prefix());
        let mut out: Vec<char> = Vec::new();
        let mut i: usize = 4;
        while i < n
            invariant
                cs@ == path@,
                n == cs@.len(),
                4 <= i <= n,
                out@ == path@.subrange(4, i as int),
            decreases n - i,
        {
            out.push(cs[i]);
            i = i + 1;
            assert(out@ =~= path@.subrange(4, i as int));
        }
        assert(path@.subrange(4, n as int) =~= path@.skip(4));
        string_from_chars(&out)
    } else {
        proof {
            if n >= 4 && path@.take(4) == extended_prefix() {
                assert(path@.take(4)[0] == path@[0]);
                assert(path@.take(4)[1] == path@[1]);
                assert(path@.take(4)[2] == path@[2]);
                assert(path@.take(4)[3] == path@[3]);
            }
        }
        string_from_chars(&cs)
    }
}

} // verus!
