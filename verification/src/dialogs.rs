//! What the program and group dialogs do with keys and buttons.

use vstd::prelude::*;
use crate::app::{switched, AppMode, KeykoffApp};
use crate::config::copy_string;
use crate::editing::{deleted_edited_entry, edits_existing, same_but_entries_and_error};

verus! {

/// What a dialog asks of its caller after one frame.
#[derive(PartialEq, Eq, Structural, Clone, Copy, Debug)]
pub enum DialogCommand {
    /// Keep showing the dialog.
    Stay,
    /// Save the dialog (`save_dialog_entry` or `save_group_dialog`), write the
    /// settings, and report through `finish_save`.
    Save,
    /// The dialog was abandoned; nothing to write.
    Cancel,
    /// The edited entry was deleted; write the settings.
    Delete,
}

/// The buttons and keys the program dialog saw in one frame.
pub struct ProgramDialogInput {
    pub save_clicked: bool,
    pub cancel_clicked: bool,
    pub delete_clicked: bool,
    pub escape: bool,
    pub enter: bool,
}

/// The buttons, keys and clicks the group dialog saw in one frame.
pub struct GroupDialogInput {
    /// The suggestions shown in this frame, as `group_suggestions` gave them
    /// at the frame's start (before the frame's typing reached the member input).
    pub suggestions: Vec<String>,
    pub up: bool,
    pub down: bool,
    pub enter: bool,
    pub escape: bool,
    /// The suggestion that was clicked.
    pub suggestion_clicked: Option<String>,
    /// The position of the member whose remove button was clicked.
    pub remove: Option<usize>,
    pub save_clicked: bool,
    pub cancel_clicked: bool,
    pub delete_clicked: bool,
}

/// What the group dialog makes of one frame: the member list, whether the
/// member input is emptied, the highlighted suggestion, and whether to save
/// or cancel.
pub struct GroupEdit {
    pub members: Seq<Seq<char>>,
    pub clear_input: bool,
    pub index: int,
    pub save: bool,
    pub cancel: bool,
}

/// The first part of a group dialog frame: a removal, then a clicked
/// suggestion is added (emptying the member input and highlighting the first
/// suggestion). A highlight past the suggestions starts at the first.
pub open spec fn group_clicks(
    members: Seq<Seq<char>>,
    index0: int,
    sugg: Seq<Seq<char>>,
    remove: Option<usize>,
    clicked: Option<Seq<char>>,
) -> GroupEdit {
    let idx0 = if index0 >= sugg.len() {
        0
    } else {
        index0
    };
    let m1 = match remove {
        Some(i) => members.remove(i as int),
        None => members,
    };
    GroupEdit {
        members: match clicked {
            Some(c) => m1.push(c),
            None => m1,
        },
        clear_input: clicked is Some,
        index: if clicked is Some {
            0
        } else {
            idx0
        },
        save: false,
        cancel: false,
    }
}

/// The arrows move the highlight while suggestions show.
pub open spec fn group_nav(index: int, sugg: Seq<Seq<char>>, up: bool, down: bool) -> int {
    let open = sugg.len() > 0;
    let idx2 = if open && down && index + 1 < sugg.len() {
        index + 1
    } else {
        index
    };
    if open && up && idx2 > 0 {
        idx2 - 1
    } else {
        idx2
    }
}

/// The keys of a group dialog frame: Enter (unless a click just added a
/// member) adds the highlighted suggestion while suggestions show and
/// otherwise saves; Escape dismisses the suggestions while they show and
/// otherwise cancels.
pub open spec fn group_keys(
    e: GroupEdit,
    sugg: Seq<Seq<char>>,
    clicked: bool,
    enter: bool,
    escape: bool,
    save_clicked: bool,
    cancel_clicked: bool,
) -> GroupEdit {
    let open = sugg.len() > 0;
    let enter_acts = enter && !clicked;
    let adds = enter_acts && open && 0 <= e.index < sugg.len();
    let dismiss = escape && open;
    GroupEdit {
        members: if adds {
            e.members.push(sugg[e.index])
        } else {
            e.members
        },
        clear_input: e.clear_input || adds || dismiss,
        index: if adds || dismiss {
            0
        } else {
            e.index
        },
        save: save_clicked || (enter_acts && !open),
        cancel: cancel_clicked || (escape && !open),
    }
}

/// One frame of the group dialog, given its members, the highlighted
/// suggestion and the suggestions offered (see `group_clicks`, `group_nav`
/// and `group_keys`, applied in that order).
pub open spec fn group_dialog_effect(
    members: Seq<Seq<char>>,
    index0: int,
    sugg: Seq<Seq<char>>,
    remove: Option<usize>,
    clicked: Option<Seq<char>>,
    up: bool,
    down: bool,
    enter: bool,
    escape: bool,
    save_clicked: bool,
    cancel_clicked: bool,
) -> GroupEdit {
    let a = group_clicks(members, index0, sugg, remove, clicked);
    let b = GroupEdit { index: group_nav(a.index, sugg, up, down), ..a };
    group_keys(b, sugg, clicked is Some, enter, escape, save_clicked, cancel_clicked)
}

fn apply_group_clicks(
    members: &mut Vec<String>,
    member_input: &mut String,
    index: &mut usize,
    sugg_len: usize,
    remove: Option<usize>,
    clicked: Option<String>,
)
    requires
        match remove {
            Some(i) => i < old(members)@.len(),
            None => true,
        },
    ensures
        ({
            let e = group_clicks(
                old(members).deep_view(),
                *old(index) as int,
                Seq::new(sugg_len as nat, |k: int| Seq::<char>::empty()),
                remove,
                match clicked {
                    Some(c) => Some(c@),
                    None => None,
                },
            );
            &&& final(members).deep_view() == e.members
            &&& final(member_input)@ == if e.clear_input {
                Seq::empty()
            } else {
                old(member_input)@
            }
            &&& *final(index) as int == e.index
        }),
{
    if *index >= sugg_len {
        *index = 0;
    }
    let ghost m0 = members.deep_view();
    match remove {
        Some(i) => {
            members.remove(i);
            assert(members.deep_view() =~= m0.remove(i as int));
        },
        None => {},
    }
    match clicked {
        Some(name) => {
            let ghost m1 = members.deep_view();
            members.push(name);
            assert(members.deep_view() =~= m1.push(name@));
            *member_input = String::new();
            *index = 0;
        },
        None => {},
    }
}

fn apply_group_keys(
    members: &mut Vec<String>,
    member_input: &mut String,
    index: &mut usize,
    sugg: &Vec<String>,
    clicked: bool,
    up: bool,
    down: bool,
    enter: bool,
    escape: bool,
    save_clicked: bool,
    cancel_clicked: bool,
) -> (r: (bool, bool))
    ensures
        ({
            let start = GroupEdit {
                members: old(members).deep_view(),
                clear_input: false,
                index: group_nav(*old(index) as int, sugg.deep_view(), up, down),
                save: false,
                cancel: false,
            };
            let e = group_keys(start, sugg.deep_view(), clicked, enter, escape, save_clicked, cancel_clicked);
            &&& final(members).deep_view() == e.members
            &&& final(member_input)@ == if e.clear_input {
                Seq::empty()
            } else {
                old(member_input)@
            }
            &&& *final(index) as int == e.index
            &&& r == (e.save, e.cancel)
        }),
{
    let open = sugg.len() > 0;
    if open {
        if down && *index < sugg.len() && *index + 1 < sugg.len() {
            *index = *index + 1;
        }
        if up && *index > 0 {
            *index = *index - 1;
        }
    }
    let mut save = save_clicked;
    let mut cancel = cancel_clicked;
    if enter && !clicked {
        if open {
            if *index < sugg.len() {
                let ghost m2 = members.deep_view();
                let name = copy_string(&sugg[*index]);
                members.push(name);
                assert(members.deep_view() =~= m2.push(sugg.deep_view()[*index as int]));
                *member_input = String::new();
                *index = 0;
            }
        } else {
            save = true;
        }
    }
    if escape {
        if open {
            *member_input = String::new();
            *index = 0;
        } else {
            cancel = true;
        }
    }
    (save, cancel)
}

impl KeykoffApp {
    /// Handles one frame of the program dialog. Delete removes the edited
    /// entry and leaves the dialog; otherwise Cancel or Escape abandons the
    /// dialog; otherwise Save or Enter asks the caller to save.
    pub fn handle_program_dialog_input(&mut self, input: &ProgramDialogInput) -> (r: DialogCommand)
        ensures
            input.delete_clicked ==> if edits_existing(*old(self)) {
                r == DialogCommand::Delete && deleted_edited_entry(*old(self), *final(self))
            } else {
                r == DialogCommand::Stay && *final(self) == *old(self)
            },
            !input.delete_clicked && (input.cancel_clicked || input.escape) ==> r
                == DialogCommand::Cancel && switched(
                (KeykoffApp { dialog_return_to_idle: false, ..*old(self) }),
                *final(self),
                AppMode::Idle,
            ),
            !input.delete_clicked && !(input.cancel_clicked || input.escape) ==> *final(self)
                == *old(self) && r == if input.save_clicked || input.enter {
                DialogCommand::Save
            } else {
                DialogCommand::Stay
            },
    {
        if input.delete_clicked {
            if self.delete_edited_entry() {
                return DialogCommand::Delete;
            }
            return DialogCommand::Stay;
        }
        if input.cancel_clicked || input.escape {
            self.cancel_dialog();
            return DialogCommand::Cancel;
        }
        if input.save_clicked || input.enter {
            DialogCommand::Save
        } else {
            DialogCommand::Stay
        }
    }

    /// Completes a save after the caller tried to write the settings: on
    /// success the dialog is left (see `leave_dialog`), on failure the reason
    /// is shown and the dialog stays.
    pub fn finish_save(&mut self, written: Result<(), String>)
        ensures
            match written {
                Ok(()) => switched(
                    (KeykoffApp { dialog_return_to_idle: false, ..*old(self) }),
                    *final(self),
                    if old(self).dialog_return_to_idle {
                        AppMode::Idle
                    } else {
                        AppMode::ConfigList
                    },
                ),
                Err(e) => {
                    &&& final(self).dialog_error is Some
                    &&& final(self).dialog_error->0@ == "Failed to save: "@ + e@
                    &&& final(self).config == old(self).config
                    &&& same_but_entries_and_error(*final(self), *old(self))
                },
            },
    {
        match written {
            Ok(()) => self.leave_dialog(),
            Err(e) => self.record_save_failure(e.as_str()),
        }
    }

    /// Handles one frame of the group dialog (see `group_dialog_effect`), over
    /// the suggestions the frame showed (`input.suggestions`).
    /// Cancelling abandons the dialog; saving is left to the caller.
    pub fn handle_group_dialog_input(&mut self, input: GroupDialogInput) -> (r: DialogCommand)
        requires
            match input.remove {
                Some(i) => i < old(self).dialog_members@.len(),
                None => true,
            },
        ensures
            ({
                let sugg = input.suggestions.deep_view();
                let eff = group_dialog_effect(
                    old(self).dialog_members.deep_view(),
                    old(self).dialog_suggestion_index as int,
                    sugg,
                    input.remove,
                    match input.suggestion_clicked {
                        Some(c) => Some(c@),
                        None => None,
                    },
                    input.up,
                    input.down,
                    input.enter,
                    input.escape,
                    input.save_clicked,
                    input.cancel_clicked,
                );
                &&& input.delete_clicked ==> if edits_existing(*old(self)) {
                    r == DialogCommand::Delete && deleted_edited_entry(*old(self), *final(self))
                } else {
                    r == DialogCommand::Stay && *final(self) == *old(self)
                }
                &&& !input.delete_clicked ==> {
                    &&& final(self).dialog_members.deep_view() == eff.members
                    &&& final(self).dialog_member_input@ == if eff.clear_input {
                        Seq::empty()
                    } else {
                        old(self).dialog_member_input@
                    }
                    &&& final(self).config == old(self).config
                    &&& r == if eff.cancel {
                        DialogCommand::Cancel
                    } else if eff.save {
                        DialogCommand::Save
                    } else {
                        DialogCommand::Stay
                    }
                    &&& eff.cancel ==> switched(
                        (KeykoffApp {
                            dialog_return_to_idle: false,
                            dialog_members: final(self).dialog_members,
                            dialog_member_input: final(self).dialog_member_input,
                            dialog_suggestion_index: final(self).dialog_suggestion_index,
                            ..*old(self)
                        }),
                        *final(self),
                        AppMode::Idle,
                    )
                    &&& !eff.cancel ==> {
                        &&& final(self).dialog_suggestion_index == eff.index
                        &&& *final(self) == KeykoffApp {
                            dialog_members: final(self).dialog_members,
                            dialog_member_input: final(self).dialog_member_input,
                            dialog_suggestion_index: final(self).dialog_suggestion_index,
                            ..*old(self)
                        }
                    }
                }
            }),
    {
        if input.delete_clicked {
            if self.delete_edited_entry() {
                return DialogCommand::Delete;
            }
            return DialogCommand::Stay;
        }
        let clicked = input.suggestion_clicked.is_some();
        let ghost sugg = input.suggestions.deep_view();
        let ghost clicked_view = match &input.suggestion_clicked {
            Some(c) => Some(c@),
            None => None,
        };
        let ghost a = group_clicks(
            self.dialog_members.deep_view(),
            self.dialog_suggestion_index as int,
            sugg,
            input.remove,
            clicked_view,
        );
        let ghost input0 = self.dialog_member_input@;
        apply_group_clicks(
            &mut self.dialog_members,
            &mut self.dialog_member_input,
            &mut self.dialog_suggestion_index,
            input.suggestions.len(),
            input.remove,
            input.suggestion_clicked,
        );
        assert(self.dialog_members.deep_view() == a.members);
        let ghost input1 = self.dialog_member_input@;
        let (save, cancel) = apply_group_keys(
            &mut self.dialog_members,
            &mut self.dialog_member_input,
            &mut self.dialog_suggestion_index,
            &input.suggestions,
            clicked,
            input.up,
            input.down,
            input.enter,
            input.escape,
            input.save_clicked,
            input.cancel_clicked,
        );
        if cancel {
            self.cancel_dialog();
            return DialogCommand::Cancel;
        }
        if save {
            DialogCommand::Save
        } else {
            DialogCommand::Stay
        }
    }
}

/// The group dialog's keys, for every member list, highlight and list of
/// suggestions shown (with no click and no removal in the frame):
/// - while suggestions show, Down moves the highlight to the next one when
///   there is one, and Up moves it to the previous one when there is one;
/// - Enter then adds the highlighted suggestion and empties the member input,
///   or saves when no suggestions show;
/// - Escape empties the member input while suggestions show, and cancels
///   otherwise.
pub proof fn lemma_group_dialog_keys(
    members: Seq<Seq<char>>,
    index0: int,
    sugg: Seq<Seq<char>>,
    up: bool,
    down: bool,
    enter: bool,
    escape: bool,
)
    requires
        0 <= index0,
    ensures
        ({
            let e = group_dialog_effect(
                members,
                index0,
                sugg,
                None,
                None,
                up,
                down,
                enter,
                escape,
                false,
                false,
            );
            &&& (index0 < sugg.len() && down && !up && !enter && !escape && index0 + 1 < sugg.len())
                ==> e.index == index0 + 1 && e.members == members
            &&& (index0 < sugg.len() && up && !down && !enter && !escape && index0 > 0) ==> e.index
                == index0 - 1 && e.members == members
            &&& (index0 < sugg.len() && !up && !down && enter && !escape) ==> e.members
                == members.push(sugg[index0]) && e.clear_input && e.index == 0 && !e.save
            &&& (index0 < sugg.len() && up && !down && enter && index0 > 0) ==> e.members
                == members.push(sugg[index0 - 1])
            &&& (sugg.len() == 0 && enter) ==> e.save && e.members == members
            &&& (sugg.len() > 0 && escape && !enter) ==> e.clear_input && !e.cancel && e.members
                == members
            &&& (sugg.len() == 0 && escape) ==> e.cancel
        }),
{
}

} // verus!
