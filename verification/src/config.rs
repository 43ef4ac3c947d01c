//! Launcher entries (programs and groups) and the operations that keep
//! references between them consistent.

use vstd::prelude::*;
use crate::text::str_eq;

verus! {

/// A program that can be launched.
pub struct RunConfig {
    pub name: String,
    pub caption: String,
    pub executable: String,
    pub parameters: String,
    pub working_directory: String,
}

/// A named bundle of other entries, referenced by name.
pub struct RunGroup {
    pub name: String,
    pub caption: String,
    pub members: Vec<String>,
}

/// One launcher entry.
pub enum Entry {
    Program(RunConfig),
    Group(RunGroup),
}

/// The abstract value of a program: its text fields.
pub struct ProgramView {
    pub name: Seq<char>,
    pub caption: Seq<char>,
    pub executable: Seq<char>,
    pub parameters: Seq<char>,
    pub working_directory: Seq<char>,
}

/// The abstract value of a group: its name, caption and member names.
pub struct GroupView {
    pub name: Seq<char>,
    pub caption: Seq<char>,
    pub members: Seq<Seq<char>>,
}

/// The abstract value of an entry.
pub enum EntryView {
    Program(ProgramView),
    Group(GroupView),
}

impl View for RunConfig {
    type V = ProgramView;

    open spec fn view(&self) -> ProgramView {
        ProgramView {
            name: self.name@,
            caption: self.caption@,
            executable: self.executable@,
            parameters: self.parameters@,
            working_directory: self.working_directory@,
        }
    }
}

impl View for RunGroup {
    type V = GroupView;

    open spec fn view(&self) -> GroupView {
        GroupView { name: self.name@, caption: self.caption@, members: self.members.deep_view() }
    }
}

impl View for Entry {
    type V = EntryView;

    open spec fn view(&self) -> EntryView {
        match self {
            Entry::Program(p) => EntryView::Program(p@),
            Entry::Group(g) => EntryView::Group(g@),
        }
    }
}

impl DeepView for Entry {
    type V = EntryView;

    open spec fn deep_view(&self) -> EntryView {
        self@
    }
}

/// The name of an entry.
pub open spec fn name_of(e: EntryView) -> Seq<char> {
    match e {
        EntryView::Program(p) => p.name,
        EntryView::Group(g) => g.name,
    }
}

/// The member names of an entry (none for a program).
pub open spec fn members_of(e: EntryView) -> Seq<Seq<char>> {
    match e {
        EntryView::Program(_) => Seq::empty(),
        EntryView::Group(g) => g.members,
    }
}

/// The names of all entries, in order.
pub open spec fn names_of(entries: Seq<EntryView>) -> Seq<Seq<char>> {
    entries.map_values(|e: EntryView| name_of(e))
}

/// No two entries share a name.
pub open spec fn names_unique(entries: Seq<EntryView>) -> bool {
    forall|i: int, j: int|
        0 <= i < entries.len() && 0 <= j < entries.len() && i != j ==> name_of(#[trigger] entries[i])
            != name_of(#[trigger] entries[j])
}

/// Every member of every group names some entry.
pub open spec fn references_valid(entries: Seq<EntryView>) -> bool {
    forall|i: int, m: Seq<char>|
        0 <= i < entries.len() && #[trigger] members_of(entries[i]).contains(m) ==> has_name(
            entries,
            m,
        )
}

/// `i` is the first position in `entries` whose name is `name`.
pub open spec fn is_first_match(entries: Seq<EntryView>, name: Seq<char>, i: int) -> bool {
    &&& 0 <= i < entries.len()
    &&& name_of(entries[i]) == name
    &&& forall|j: int| 0 <= j < i ==> name_of(#[trigger] entries[j]) != name
}

/// Some entry is named `name`.
pub open spec fn has_name(entries: Seq<EntryView>, name: Seq<char>) -> bool {
    exists|i: int| 0 <= i < entries.len() && name_of(#[trigger] entries[i]) == name
}

/// The position of the first entry named `name`, if any.
pub open spec fn spec_find(entries: Seq<EntryView>, name: Seq<char>) -> Option<int> {
    if has_name(entries, name) {
        Some(choose|i: int| is_first_match(entries, name, i))
    } else {
        None
    }
}

/// `spec_find` names the first entry with the name, or reports that there is none.
pub proof fn lemma_spec_find(entries: Seq<EntryView>, name: Seq<char>)
    ensures
        match spec_find(entries, name) {
            Some(i) => is_first_match(entries, name, i),
            None => !has_name(entries, name),
        },
{
    if has_name(entries, name) {
        let k = choose|i: int| 0 <= i < entries.len() && name_of(#[trigger] entries[i]) == name;
        lemma_first_match_exists(entries, name, k);
    }
}

/// A first match is the only first match.
pub proof fn lemma_first_match_unique(entries: Seq<EntryView>, name: Seq<char>, i: int)
    requires
        is_first_match(entries, name, i),
    ensures
        spec_find(entries, name) == Some(i),
{
    lemma_spec_find(entries, name);
    let k = spec_find(entries, name)->0;
    if k < i {
        assert(name_of(entries[k]) != name);
    } else if k > i {
        assert(name_of(entries[i]) != name);
    }
}

proof fn lemma_first_match_exists(entries: Seq<EntryView>, name: Seq<char>, k: int)
    requires
        0 <= k < entries.len(),
        name_of(entries[k]) == name,
    ensures
        exists|i: int| is_first_match(entries, name, i),
    decreases k,
{
    if exists|j: int| 0 <= j < k && name_of(#[trigger] entries[j]) == name {
        let j = choose|j: int| 0 <= j < k && name_of(#[trigger] entries[j]) == name;
        lemma_first_match_exists(entries, name, j);
    } else {
        assert(is_first_match(entries, name, k));
    }
}

/// Returns the name of an entry.
pub fn entry_name(entry: &Entry) -> (r: &str)
    ensures
        r@ == name_of(entry@),
{
    match entry {
        Entry::Program(p) => p.name.as_str(),
        Entry::Group(g) => g.name.as_str(),
    }
}

/// Returns the position of the first entry named `name`, or `None` if no entry has that name.
pub fn find_by_name(entries: &[Entry], name: &str) -> (r: Option<usize>)
    ensures
        r == match spec_find(entries.deep_view(), name@) {
            Some(i) => Some(i as usize),
            None => None::<usize>,
        },
        match r {
            Some(i) => is_first_match(entries.deep_view(), name@, i as int),
            None => !has_name(entries.deep_view(), name@),
        },
{
    let ghost ev = entries.deep_view();
    proof {
        lemma_spec_find(ev, name@);
    }
    let mut i: usize = 0;
    while i < entries.len()
        invariant
            ev == entries.deep_view(),
            i <= ev.len(),
            forall|j: int| 0 <= j < i ==> name_of(#[trigger] ev[j]) != name@,
        decreases ev.len() - i,
    {
        if str_eq(entry_name(&entries[i]), name) {
            proof {
                assert(is_first_match(ev, name@, i as int));
                lemma_first_match_unique(ev, name@, i as int);
            }
            return Some(i);
        }
        i = i + 1;
    }
    proof {
        if has_name(ev, name@) {
            let k = choose|k: int| 0 <= k < ev.len() && name_of(#[trigger] ev[k]) == name@;
            assert(name_of(ev[k]) != name@);
        }
    }
    None
}


/// A member name after renaming `old` to `new`.
pub open spec fn rename_member(m: Seq<char>, old: Seq<char>, new: Seq<char>) -> Seq<char> {
    if m == old {
        new
    } else {
        m
    }
}

/// A member list after renaming `old` to `new`.
pub open spec fn renamed_members_spec(ms: Seq<Seq<char>>, old: Seq<char>, new: Seq<char>) -> Seq<
    Seq<char>,
> {
    ms.map_values(|m: Seq<char>| rename_member(m, old, new))
}

/// An entry after every reference to `old` in it was renamed to `new`.
pub open spec fn renamed_entry(e: EntryView, old: Seq<char>, new: Seq<char>) -> EntryView {
    match e {
        EntryView::Program(p) => EntryView::Program(p),
        EntryView::Group(g) => EntryView::Group(
            GroupView {
                name: g.name,
                caption: g.caption,
                members: renamed_members_spec(g.members, old, new),
            },
        ),
    }
}

/// All entries after every reference to `old` was renamed to `new`.
pub open spec fn renamed_entries(es: Seq<EntryView>, old: Seq<char>, new: Seq<char>) -> Seq<
    EntryView,
> {
    es.map_values(|e: EntryView| renamed_entry(e, old, new))
}

/// A member list with every occurrence of `x` removed, the rest in order.
pub open spec fn without(ms: Seq<Seq<char>>, x: Seq<char>) -> Seq<Seq<char>>
    decreases ms.len(),
{
    if ms.len() == 0 {
        ms
    } else if ms.last() == x {
        without(ms.drop_last(), x)
    } else {
        without(ms.drop_last(), x).push(ms.last())
    }
}

/// An entry after every reference to `x` in it was removed.
pub open spec fn pruned_entry(e: EntryView, x: Seq<char>) -> EntryView {
    match e {
        EntryView::Program(p) => EntryView::Program(p),
        EntryView::Group(g) => EntryView::Group(
            GroupView { name: g.name, caption: g.caption, members: without(g.members, x) },
        ),
    }
}

/// All entries after every reference to `x` was removed.
pub open spec fn pruned_entries(es: Seq<EntryView>, x: Seq<char>) -> Seq<EntryView> {
    es.map_values(|e: EntryView| pruned_entry(e, x))
}

/// Copies a string.
pub fn copy_string(s: &String) -> (r: String)
    ensures
        r@ == s@,
{
    s.clone()
}

/// Copies a list of strings.
pub fn copy_strings(v: &Vec<String>) -> (r: Vec<String>)
    ensures
        r.deep_view() == v.deep_view(),
{
    let mut r: Vec<String> = Vec::new();
    let mut i: usize = 0;
    while i < v.len()
        invariant
            i <= v.len(),
            r.len() == i,
            forall|k: int| 0 <= k < i ==> (#[trigger] r@[k])@ == v@[k]@,
        decreases v.len() - i,
    {
        r.push(copy_string(&v[i]));
        i = i + 1;
    }
    assert(r.deep_view() =~= v.deep_view());
    r
}

fn renamed_members(members: &Vec<String>, old_name: &str, new_name: &str) -> (r: Vec<String>)
    ensures
        r.deep_view() == renamed_members_spec(members.deep_view(), old_name@, new_name@),
{
    let ghost target = renamed_members_spec(members.deep_view(), old_name@, new_name@);
    let mut r: Vec<String> = Vec::new();
    let mut i: usize = 0;
    while i < members.len()
        invariant
            i <= members.len(),
            target == renamed_members_spec(members.deep_view(), old_name@, new_name@),
            r.len() == i,
            forall|k: int| 0 <= k < i ==> (#[trigger] r@[k])@ == target[k],
        decreases members.len() - i,
    {
        if str_eq(members[i].as_str(), old_name) {
            r.push(new_name.to_owned());
        } else {
            r.push(copy_string(&members[i]));
        }
        i = i + 1;
    }
    assert(r.deep_view() =~= target);
    r
}

fn pruned_members(members: &Vec<String>, name: &str) -> (r: Vec<String>)
    ensures
        r.deep_view() == without(members.deep_view(), name@),
{
    let ghost ms = members.deep_view();
    let mut r: Vec<String> = Vec::new();
    let mut i: usize = 0;
    while i < members.len()
        invariant
            i <= members.len(),
            ms == members.deep_view(),
            r.deep_view() == without(ms.take(i as int), name@),
        decreases members.len() - i,
    {
        assert(ms.take(i + 1).drop_last() =~= ms.take(i as int));
        if !str_eq(members[i].as_str(), name) {
            r.push(copy_string(&members[i]));
            assert(r.deep_view() =~= without(ms.take(i as int), name@).push(ms[i as int]));
        }
        i = i + 1;
    }
    assert(ms.take(i as int) =~= ms);
    r
}

/// Rewrites every group member equal to `old_name` to `new_name`; entry names,
/// captions, programs and all other members stay as they were.
pub fn cascade_rename(entries: &mut [Entry], old_name: &str, new_name: &str)
    ensures
        final(entries).deep_view() == renamed_entries(
            old(entries).deep_view(),
            old_name@,
            new_name@,
        ),
        names_of(final(entries).deep_view()) == names_of(old(entries).deep_view()),
        old_name@ == new_name@ ==> final(entries)@ == old(entries)@,
{
    let ghost orig = entries.deep_view();
    let ghost target = renamed_entries(orig, old_name@, new_name@);
    if str_eq(old_name, new_name) {
        assert(target =~= orig) by {
            assert forall|k: int| 0 <= k < orig.len() implies target[k] == orig[k] by {
                match orig[k] {
                    EntryView::Program(_) => {},
                    EntryView::Group(g) => {
                        assert(renamed_members_spec(g.members, old_name@, new_name@) =~= g.members);
                    },
                }
            }
        }
        assert(names_of(target) =~= names_of(orig));
        return;
    }
    let mut i: usize = 0;
    while i < entries.len()
        invariant
            entries@.len() == orig.len(),
            i <= orig.len(),
            target == renamed_entries(orig, old_name@, new_name@),
            forall|k: int| 0 <= k < i ==> (#[trigger] entries@[k])@ == target[k],
            forall|k: int| i <= k < orig.len() ==> (#[trigger] entries@[k])@ == orig[k],
        decreases orig.len() - i,
    {
        let replacement: Option<Entry> = match &entries[i] {
            Entry::Group(g) => Some(
                Entry::Group(
                    RunGroup {
                        name: copy_string(&g.name),
                        caption: copy_string(&g.caption),
                        members: renamed_members(&g.members, old_name, new_name),
                    },
                ),
            ),
            Entry::Program(_) => None,
        };
        if let Some(e) = replacement {
            entries[i] = e;
        }
        i = i + 1;
    }
    assert(entries.deep_view() =~= target);
    assert(names_of(target) =~= names_of(orig));
}

/// Removes every group member equal to `name`; everything else stays as it was.
pub fn cascade_delete(entries: &mut [Entry], name: &str)
    ensures
        final(entries).deep_view() == pruned_entries(old(entries).deep_view(), name@),
        names_of(final(entries).deep_view()) == names_of(old(entries).deep_view()),
{
    let ghost orig = entries.deep_view();
    let ghost target = pruned_entries(orig, name@);
    let mut i: usize = 0;
    while i < entries.len()
        invariant
            entries@.len() == orig.len(),
            i <= orig.len(),
            target == pruned_entries(orig, name@),
            forall|k: int| 0 <= k < i ==> (#[trigger] entries@[k])@ == target[k],
            forall|k: int| i <= k < orig.len() ==> (#[trigger] entries@[k])@ == orig[k],
        decreases orig.len() - i,
    {
        let replacement: Option<Entry> = match &entries[i] {
            Entry::Group(g) => Some(
                Entry::Group(
                    RunGroup {
                        name: copy_string(&g.name),
                        caption: copy_string(&g.caption),
                        members: pruned_members(&g.members, name),
                    },
                ),
            ),
            Entry::Program(_) => None,
        };
        if let Some(e) = replacement {
            entries[i] = e;
        }
        i = i + 1;
    }
    assert(entries.deep_view() =~= target);
    assert(names_of(target) =~= names_of(orig));
}


/// Membership in a pruned member list: exactly the members other than `x`.
pub proof fn lemma_without_contains(ms: Seq<Seq<char>>, x: Seq<char>, m: Seq<char>)
    ensures
        without(ms, x).contains(m) <==> (ms.contains(m) && m != x),
    decreases ms.len(),
{
    if ms.len() > 0 {
        lemma_without_contains(ms.drop_last(), x, m);
        if ms.contains(m) && m != x && !ms.drop_last().contains(m) {
            let k = choose|k: int| 0 <= k < ms.len() && ms[k] == m;
            if k < ms.len() - 1 {
                assert(ms.drop_last()[k] == m);
            }
            assert(without(ms, x).last() == m);
        }
        if without(ms, x).contains(m) {
            let w = without(ms.drop_last(), x);
            if ms.last() != x && m == ms.last() {
                assert(ms[ms.len() - 1] == m);
            } else {
                let k = choose|k: int| 0 <= k < without(ms, x).len() && without(ms, x)[k] == m;
                if ms.last() != x && k == w.len() {
                } else {
                    assert(w[k] == m);
                    let j = choose|j: int| 0 <= j < ms.drop_last().len() && ms.drop_last()[j] == m;
                    assert(ms[j] == m);
                }
            }
        }
        if ms.drop_last().contains(m) && m != x {
            let j = choose|j: int| 0 <= j < ms.drop_last().len() && ms.drop_last()[j] == m;
            assert(ms[j] == m);
            let w = without(ms.drop_last(), x);
            let k = choose|k: int| 0 <= k < w.len() && w[k] == m;
            if ms.last() != x {
                assert(without(ms, x)[k] == m);
            }
        }
    }
}

/// Pruning a list that no longer holds `x` changes nothing.
proof fn lemma_without_absent(ms: Seq<Seq<char>>, x: Seq<char>)
    requires
        !ms.contains(x),
    ensures
        without(ms, x) == ms,
    decreases ms.len(),
{
    if ms.len() > 0 {
        assert(ms.last() == ms[ms.len() - 1]);
        assert(!ms.drop_last().contains(x)) by {
            if ms.drop_last().contains(x) {
                let j = choose|j: int| 0 <= j < ms.drop_last().len() && ms.drop_last()[j] == x;
                assert(ms[j] == x);
            }
        }
        lemma_without_absent(ms.drop_last(), x);
        assert(ms.drop_last().push(ms.last()) =~= ms);
    }
}

/// After renaming `old` to a different name, no group refers to `old` any more.
pub proof fn lemma_rename_leaves_no_old_reference(
    es: Seq<EntryView>,
    old: Seq<char>,
    new: Seq<char>,
)
    requires
        old != new,
    ensures
        forall|i: int, m: Seq<char>|
            0 <= i < es.len() && #[trigger] members_of(renamed_entries(es, old, new)[i]).contains(
                m,
            ) ==> m != old,
{
    assert forall|i: int, m: Seq<char>|
        0 <= i < es.len() && #[trigger] members_of(renamed_entries(es, old, new)[i]).contains(
            m,
        ) implies m != old by {
        let ms = members_of(renamed_entries(es, old, new)[i]);
        let k = choose|k: int| 0 <= k < ms.len() && ms[k] == m;
        match es[i] {
            EntryView::Program(_) => {},
            EntryView::Group(g) => {
                assert(ms[k] == rename_member(g.members[k], old, new));
            },
        }
    }
}

/// Renaming `new` back to `old` undoes renaming `old` to `new`, provided no
/// group referred to `new` beforehand.
pub proof fn lemma_rename_round_trip(es: Seq<EntryView>, old: Seq<char>, new: Seq<char>)
    requires
        forall|i: int| 0 <= i < es.len() ==> !(#[trigger] members_of(es[i])).contains(new),
    ensures
        renamed_entries(renamed_entries(es, old, new), new, old) == es,
{
    let once = renamed_entries(es, old, new);
    let twice = renamed_entries(once, new, old);
    assert forall|i: int| 0 <= i < es.len() implies twice[i] == es[i] by {
        match es[i] {
            EntryView::Program(_) => {},
            EntryView::Group(g) => {
                assert(!members_of(es[i]).contains(new));
                let back = renamed_members_spec(renamed_members_spec(g.members, old, new), new, old);
                assert forall|k: int| 0 <= k < g.members.len() implies back[k] == g.members[k] by {
                    if g.members[k] == new {
                        assert(members_of(es[i]).contains(new));
                    }
                }
                assert(back =~= g.members);
            },
        }
    }
    assert(twice =~= es);
}

/// After a cascading delete no group refers to the deleted name.
pub proof fn lemma_delete_leaves_no_reference(es: Seq<EntryView>, x: Seq<char>)
    ensures
        forall|i: int, m: Seq<char>|
            0 <= i < es.len() && #[trigger] members_of(pruned_entries(es, x)[i]).contains(m) ==> m
                != x,
{
    assert forall|i: int, m: Seq<char>|
        0 <= i < es.len() && #[trigger] members_of(pruned_entries(es, x)[i]).contains(
            m,
        ) implies m != x by {
        match es[i] {
            EntryView::Program(_) => {},
            EntryView::Group(g) => {
                lemma_without_contains(g.members, x, m);
            },
        }
    }
}

/// A cascading delete of the same name a second time changes nothing.
pub proof fn lemma_delete_idempotent(es: Seq<EntryView>, x: Seq<char>)
    ensures
        pruned_entries(pruned_entries(es, x), x) == pruned_entries(es, x),
{
    let once = pruned_entries(es, x);
    assert forall|i: int| 0 <= i < es.len() implies pruned_entries(once, x)[i] == once[i] by {
        match es[i] {
            EntryView::Program(_) => {},
            EntryView::Group(g) => {
                lemma_without_contains(g.members, x, x);
                lemma_without_absent(without(g.members, x), x);
            },
        }
    }
    assert(pruned_entries(once, x) =~= once);
}


/// The settings the launcher keeps: its entries and its global hotkey.
pub struct AppConfig {
    pub entries: Vec<Entry>,
    pub hotkey_key: String,
    pub hotkey_alt: bool,
    pub hotkey_ctrl: bool,
}

/// The hotkey's key when the settings name none.
pub fn default_hotkey_key() -> (r: String)
    ensures
        r@ == "F10"@,
{
    "F10".to_owned()
}

/// The default of a flag that is on unless the settings say otherwise.
pub fn default_true() -> (r: bool)
    ensures
        r,
{
    true
}

impl Default for AppConfig {
    /// No entries, and ALT+F10 as the hotkey.
    fn default() -> (r: Self)
        ensures
            r.entries@.len() == 0,
            r.hotkey_key@ == "F10"@,
            r.hotkey_alt,
            !r.hotkey_ctrl,
    {
        AppConfig {
            entries: Vec::new(),
            hotkey_key: default_hotkey_key(),
            hotkey_alt: default_true(),
            hotkey_ctrl: false,
        }
    }
}

/// The two kinds of entry a stored record can describe.
#[derive(PartialEq, Eq, Structural, Clone, Copy, Debug)]
pub enum EntryKind {
    Program,
    Group,
}

/// The kind that a stored record's `kind` tag names: a record without a tag
/// is a program (records written before groups existed have none), `"program"`
/// and `"group"` name the two kinds, and any other tag names none.
pub open spec fn kind_of_tag(tag: Option<Seq<char>>) -> Option<EntryKind> {
    match tag {
        None => Some(EntryKind::Program),
        Some(t) => if t == "program"@ {
            Some(EntryKind::Program)
        } else if t == "group"@ {
            Some(EntryKind::Group)
        } else {
            None
        },
    }
}

/// Resolves a stored record's `kind` tag (see `kind_of_tag`).
pub fn resolve_entry_kind(tag: Option<&str>) -> (r: Option<EntryKind>)
    ensures
        r == kind_of_tag(
            match tag {
                Some(t) => Some(t@),
                None => None,
            },
        ),
{
    match tag {
        None => Some(EntryKind::Program),
        Some(t) => {
            if str_eq(t, "program") {
                Some(EntryKind::Program)
            } else if str_eq(t, "group") {
                Some(EntryKind::Group)
            } else {
                None
            }
        },
    }
}

/// The tag written for an entry of the given kind.
pub fn kind_tag(kind: EntryKind) -> (r: &'static str)
    ensures
        kind_of_tag(Some(r@)) == Some(kind),
{
    proof {
        reveal_strlit("program");
        reveal_strlit("group");
    }
    match kind {
        EntryKind::Program => {
            let r = "program";
            assert(r@ == "program"@);
            r
        },
        EntryKind::Group => {
            let r = "group";
            assert(r@.len() == 5);
            assert("program"@.len() == 7);
            assert(r@ != "program"@);
            r
        },
    }
}

} // verus!
