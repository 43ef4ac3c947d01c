//! Type-to-search in the overlay and member suggestions in the group dialog.

use vstd::prelude::*;
use crate::app::{AppMode, KeykoffApp, dialog_same, requests_same};
use crate::config::{entry_name, name_of, Entry, EntryView};
use crate::groups::{reaches, would_cycle};
use crate::text::{contains_seq, lowercase, str_contains, str_eq, str_to_lowercase, trim, trim_seq};

verus! {

/// The entry's name, lower-cased, contains the (lower-cased) query.
pub open spec fn name_matches(e: EntryView, query: Seq<char>) -> bool {
    contains_seq(lowercase(name_of(e)), query)
}

/// The entries' names, lower-cased, in order.
pub open spec fn lowered_names(es: Seq<EntryView>) -> Seq<Seq<char>> {
    Seq::new(es.len(), |i: int| lowercase(name_of(es[i])))
}

/// The positions among the first `n` names that contain `query`, in order.
pub open spec fn containing_upto(names: Seq<Seq<char>>, query: Seq<char>, n: int) -> Seq<usize>
    decreases n,
{
    if n <= 0 {
        Seq::empty()
    } else {
        let r = containing_upto(names, query, n - 1);
        if contains_seq(names[n - 1], query) {
            r.push((n - 1) as usize)
        } else {
            r
        }
    }
}

/// The positions among the first `n` entries whose names match, in order.
pub open spec fn matching_upto(es: Seq<EntryView>, query: Seq<char>, n: int) -> Seq<usize> {
    containing_upto(lowered_names(es), query, n)
}

/// The overlay's results for a search text: nothing for an empty search,
/// otherwise the positions of all entries whose lower-cased name contains the
/// lower-cased search text, in order.
pub open spec fn search_results(es: Seq<EntryView>, search: Seq<char>) -> Seq<usize> {
    let q = lowercase(search);
    if q.len() == 0 {
        Seq::empty()
    } else {
        matching_upto(es, q, es.len() as int)
    }
}

proof fn lemma_containing_upto(names: Seq<Seq<char>>, query: Seq<char>, n: int)
    requires
        0 <= n <= names.len(),
        names.len() <= usize::MAX,
    ensures
        forall|q: int|
            0 <= q < containing_upto(names, query, n).len() ==> #[trigger] containing_upto(names, query, n)[q] < n,
        forall|a: int, b: int|
            0 <= a < b < containing_upto(names, query, n).len() ==> #[trigger] containing_upto(names, query, n)[a]
                < #[trigger] containing_upto(names, query, n)[b],
        forall|i: int|
            0 <= i < n ==> (containing_upto(names, query, n).contains(i as usize) <==> contains_seq(
                #[trigger] names[i],
                query,
            )),
    decreases n,
{
    if n > 0 {
        lemma_containing_upto(names, query, n - 1);
        let r = containing_upto(names, query, n - 1);
        let full = containing_upto(names, query, n);
        assert forall|a: int, b: int| 0 <= a < b < full.len() implies #[trigger] full[a] < #[trigger] full[b] by {
            if b == r.len() {
                assert(r[a] < n - 1);
            } else {
                assert(full[a] == r[a] && full[b] == r[b]);
            }
        }
        assert forall|i: int| 0 <= i < n implies (containing_upto(names, query, n).contains(i as usize)
            <==> contains_seq(#[trigger] names[i], query)) by {
            let full = containing_upto(names, query, n);
            if i < n - 1 {
                if full.contains(i as usize) {
                    let q = choose|q: int| 0 <= q < full.len() && full[q] == i as usize;
                    if q < r.len() {
                        assert(r[q] == i as usize);
                    }
                }
                if r.contains(i as usize) {
                    let q = choose|q: int| 0 <= q < r.len() && r[q] == i as usize;
                    assert(full[q] == i as usize);
                }
            } else {
                if contains_seq(names[i], query) {
                    assert(full[full.len() - 1] == i as usize);
                } else {
                    if full.contains(i as usize) {
                        let q = choose|q: int| 0 <= q < full.len() && full[q] == i as usize;
                        assert(r[q] < n - 1);
                    }
                }
            }
        }
    }
}

proof fn lemma_matching_upto(es: Seq<EntryView>, query: Seq<char>, n: int)
    requires
        0 <= n <= es.len(),
        es.len() <= usize::MAX,
    ensures
        forall|q: int|
            0 <= q < matching_upto(es, query, n).len() ==> #[trigger] matching_upto(es, query, n)[q] < n,
        forall|a: int, b: int|
            0 <= a < b < matching_upto(es, query, n).len() ==> #[trigger] matching_upto(es, query, n)[a]
                < #[trigger] matching_upto(es, query, n)[b],
        forall|i: int|
            0 <= i < n ==> (matching_upto(es, query, n).contains(i as usize) <==> name_matches(
                #[trigger] es[i],
                query,
            )),
{
    lemma_containing_upto(lowered_names(es), query, n);
    assert forall|i: int| 0 <= i < n implies (matching_upto(es, query, n).contains(i as usize)
        <==> name_matches(#[trigger] es[i], query)) by {
        assert(lowered_names(es)[i] == lowercase(name_of(es[i])));
    }
}

/// The overlay's results are exactly the matching entries, each once, in the
/// entries' order.
pub proof fn lemma_search_results_exact(es: Seq<EntryView>, search: Seq<char>)
    requires
        lowercase(search).len() > 0,
        es.len() <= usize::MAX,
    ensures
        forall|q: int|
            0 <= q < search_results(es, search).len() ==> #[trigger] search_results(es, search)[q]
                < es.len(),
        forall|a: int, b: int|
            0 <= a < b < search_results(es, search).len() ==> #[trigger] search_results(es, search)[a]
                < #[trigger] search_results(es, search)[b],
        forall|i: int|
            0 <= i < es.len() ==> (search_results(es, search).contains(i as usize) <==> name_matches(
                #[trigger] es[i],
                lowercase(search),
            )),
{
    lemma_matching_upto(es, lowercase(search), es.len() as int);
}

/// The entries' names, lower-cased (see `lowered_names`).
fn lowered_entry_names(entries: &[Entry]) -> (r: Vec<String>)
    ensures
        r.deep_view() == lowered_names(entries.deep_view()),
{
    let ghost es = entries.deep_view();
    let mut r: Vec<String> = Vec::new();
    let mut i: usize = 0;
    while i < entries.len()
        invariant
            es == entries.deep_view(),
            i <= es.len(),
            r.deep_view() == lowered_names(es).take(i as int),
        decreases es.len() - i,
    {
        let ghost prev = r.deep_view();
        let l = str_to_lowercase(entry_name(&entries[i]));
        assert(l@ == lowered_names(es)[i as int]);
        r.push(l);
        assert(r.deep_view() =~= prev.push(l@));
        assert(r.deep_view() =~= lowered_names(es).take(i + 1));
        i = i + 1;
    }
    assert(lowered_names(es).take(i as int) =~= lowered_names(es));
    r
}

/// The positions of the names that contain `lower_query`, in increasing
/// order; the names and the query come lower-cased, so this is where the
/// overlay's matching happens.
pub fn matching_indices(lower_names: &[String], lower_query: &str) -> (r: Vec<usize>)
    ensures
        r@ == containing_upto(lower_names.deep_view(), lower_query@, lower_names@.len() as int),
        forall|q: int| 0 <= q < r@.len() ==> #[trigger] r@[q] < lower_names@.len(),
        forall|a: int, b: int| 0 <= a < b < r@.len() ==> #[trigger] r@[a] < #[trigger] r@[b],
        forall|i: int|
            0 <= i < lower_names@.len() ==> (r@.contains(i as usize) <==> contains_seq(
                #[trigger] lower_names.deep_view()[i],
                lower_query@,
            )),
{
    let ghost names = lower_names.deep_view();
    let mut out: Vec<usize> = Vec::new();
    let mut i: usize = 0;
    while i < lower_names.len()
        invariant
            names == lower_names.deep_view(),
            i <= names.len(),
            out@ == containing_upto(names, lower_query@, i as int),
        decreases names.len() - i,
    {
        assert(lower_names[i as int]@ == names[i as int]);
        if str_contains(lower_names[i].as_str(), lower_query) {
            out.push(i);
        }
        i = i + 1;
    }
    proof {
        lemma_containing_upto(names, lower_query@, names.len() as int);
    }
    out
}

impl KeykoffApp {
    /// Recomputes the overlay's results from the search text (see
    /// `search_results`), and moves the highlight back to the first result
    /// when it points past the last one.
    pub fn update_filtered_results(&mut self)
        ensures
            final(self).filtered_indices@ == search_results(
                old(self).config.entries.deep_view(),
                old(self).search_text@,
            ),
            final(self).selected_index == if old(self).selected_index < final(self).filtered_indices@.len() {
                old(self).selected_index
            } else {
                0
            },
            final(self).search_text == old(self).search_text,
            final(self).mode == old(self).mode,
            final(self).mode_changed == old(self).mode_changed,
            final(self).needs_focus == old(self).needs_focus,
            final(self).config == old(self).config,
            dialog_same(*final(self), *old(self)),
            requests_same(*final(self), *old(self)),
    {
        let query = str_to_lowercase(self.search_text.as_str());
        if query.as_str().is_empty() {
            self.filtered_indices.clear();
        } else {
            let names = lowered_entry_names(self.config.entries.as_slice());
            let out = matching_indices(names.as_slice(), query.as_str());
            assert(names.deep_view().len() == names@.len());
            self.filtered_indices = out;
        }
        if self.selected_index >= self.filtered_indices.len() {
            self.selected_index = 0;
        }
    }
}

/// Entry name `name`, lower-cased `lname`, may be offered for the group being
/// edited: it is not the group itself, not already a member, `lname`
/// contains the (lower-cased) query, and adding it would not close a cycle.
pub open spec fn offerable(
    es: Seq<EntryView>,
    members: Seq<Seq<char>>,
    editing: Seq<char>,
    query: Seq<char>,
    name: Seq<char>,
    lname: Seq<char>,
) -> bool {
    &&& name != editing
    &&& !members.contains(name)
    &&& contains_seq(lname, query)
    &&& !reaches(es, name, editing)
}

/// Entry name `name` may be offered for the group being edited: it is not
/// the group itself, not already a member, contains the query (ignoring
/// case), and adding it would not close a cycle.
pub open spec fn suggestion_ok(
    es: Seq<EntryView>,
    members: Seq<Seq<char>>,
    editing: Seq<char>,
    query: Seq<char>,
    name: Seq<char>,
) -> bool {
    offerable(es, members, editing, query, name, lowercase(name))
}

/// The names among the first `n` entries that may be offered, in order,
/// given the entries' lower-cased names `lnames`.
pub open spec fn offerable_upto(
    es: Seq<EntryView>,
    lnames: Seq<Seq<char>>,
    members: Seq<Seq<char>>,
    editing: Seq<char>,
    query: Seq<char>,
    n: int,
) -> Seq<Seq<char>>
    decreases n,
{
    if n <= 0 {
        Seq::empty()
    } else {
        let r = offerable_upto(es, lnames, members, editing, query, n - 1);
        if offerable(es, members, editing, query, name_of(es[n - 1]), lnames[n - 1]) {
            r.push(name_of(es[n - 1]))
        } else {
            r
        }
    }
}

/// The names among the first `n` entries that may be offered, in order.
pub open spec fn suggestions_upto(
    es: Seq<EntryView>,
    members: Seq<Seq<char>>,
    editing: Seq<char>,
    query: Seq<char>,
    n: int,
) -> Seq<Seq<char>> {
    offerable_upto(es, lowered_names(es), members, editing, query, n)
}

/// At most the first `k` elements.
pub open spec fn first_n<A>(s: Seq<A>, k: nat) -> Seq<A> {
    if s.len() <= k {
        s
    } else {
        s.take(k as int)
    }
}

/// The group dialog's suggestions: none while the member input is blank,
/// otherwise the first eight entry names that may be offered, in entry order.
pub open spec fn suggestions_spec(
    es: Seq<EntryView>,
    members: Seq<Seq<char>>,
    editing: Seq<char>,
    member_input: Seq<char>,
) -> Seq<Seq<char>> {
    let q = lowercase(trim_seq(member_input));
    if q.len() == 0 {
        Seq::empty()
    } else {
        first_n(suggestions_upto(es, members, editing, q, es.len() as int), 8)
    }
}

/// The name the group dialog treats as the group itself: the edited group's
/// stored name (so renaming it in the dialog changes nothing), or the typed
/// name for a new group.
pub open spec fn editing_name_spec(a: KeykoffApp) -> Seq<char> {
    match a.mode {
        AppMode::EditGroup { index } => if index < a.config.entries@.len() {
            match a.config.entries.deep_view()[index as int] {
                EntryView::Group(g) => g.name,
                EntryView::Program(_) => Seq::empty(),
            }
        } else {
            Seq::empty()
        },
        _ => a.dialog_name@,
    }
}

fn contains_name(names: &Vec<String>, name: &str) -> (r: bool)
    ensures
        r == names.deep_view().contains(name@),
{
    let mut i: usize = 0;
    while i < names.len()
        invariant
            i <= names.len(),
            forall|k: int| 0 <= k < i ==> names.deep_view()[k] != name@,
        decreases names.len() - i,
    {
        if str_eq(names[i].as_str(), name) {
            assert(names.deep_view()[i as int] == name@);
            return true;
        }
        i = i + 1;
    }
    false
}

/// The names that may be offered as members (see `offerable`), the first
/// eight in entry order, given the entries' lower-cased names and the
/// lower-cased query: this is where the group dialog's matching happens.
pub fn suggestion_names(
    entries: &[Entry],
    lower_names: &[String],
    members: &Vec<String>,
    editing_name: &str,
    lower_query: &str,
) -> (r: Vec<String>)
    requires
        lower_names@.len() == entries@.len(),
    ensures
        r.deep_view() == first_n(
            offerable_upto(
                entries.deep_view(),
                lower_names.deep_view(),
                members.deep_view(),
                editing_name@,
                lower_query@,
                entries@.len() as int,
            ),
            8,
        ),
{
    let ghost es = entries.deep_view();
    let ghost ln = lower_names.deep_view();
    let ghost ms = members.deep_view();
    let mut out: Vec<String> = Vec::new();
    let mut i: usize = 0;
    while i < entries.len()
        invariant
            es == entries.deep_view(),
            ln == lower_names.deep_view(),
            ms == members.deep_view(),
            ln.len() == es.len(),
            i <= es.len(),
            out.deep_view() == first_n(offerable_upto(es, ln, ms, editing_name@, lower_query@, i as int), 8),
        decreases es.len() - i,
    {
        let ghost before = offerable_upto(es, ln, ms, editing_name@, lower_query@, i as int);
        let name = entry_name(&entries[i]);
        assert(lower_names[i as int]@ == ln[i as int]);
        let ok = !str_eq(name, editing_name) && !contains_name(members, name) && str_contains(
            lower_names[i].as_str(),
            lower_query,
        ) && !would_cycle(entries, editing_name, name);
        assert(ok == offerable(es, ms, editing_name@, lower_query@, name@, ln[i as int]));
        if ok && out.len() < 8 {
            let ghost prev = out.deep_view();
            out.push(name.to_owned());
            assert(out.deep_view() =~= prev.push(name@));
        }
        proof {
            let after = offerable_upto(es, ln, ms, editing_name@, lower_query@, i + 1);
            if before.len() >= 8 {
                if ok {
                    assert(first_n(after, 8) =~= first_n(before, 8));
                }
            }
        }
        i = i + 1;
    }
    out
}

impl KeykoffApp {
    /// The name the group dialog treats as the group itself (see `editing_name_spec`).
    pub fn editing_group_name(&self) -> (r: String)
        ensures
            r@ == editing_name_spec(*self),
    {
        match self.mode {
            AppMode::EditGroup { index } => {
                if index < self.config.entries.len() {
                    match &self.config.entries[index] {
                        Entry::Group(g) => g.name.clone(),
                        Entry::Program(_) => String::new(),
                    }
                } else {
                    String::new()
                }
            },
            _ => self.dialog_name.clone(),
        }
    }

    /// The member suggestions for the group named `editing_name` (see `suggestions_spec`).
    pub fn compute_suggestions(&self, editing_name: &str) -> (r: Vec<String>)
        ensures
            r.deep_view() == suggestions_spec(
                self.config.entries.deep_view(),
                self.dialog_members.deep_view(),
                editing_name@,
                self.dialog_member_input@,
            ),
    {
        let trimmed = trim(self.dialog_member_input.as_str());
        let query = str_to_lowercase(trimmed.as_str());
        if query.as_str().is_empty() {
            let out: Vec<String> = Vec::new();
            assert(out.deep_view() =~= Seq::<Seq<char>>::empty());
            return out;
        }
        let names = lowered_entry_names(self.config.entries.as_slice());
        assert(names.deep_view().len() == names@.len());
        suggestion_names(
            self.config.entries.as_slice(),
            names.as_slice(),
            &self.dialog_members,
            editing_name,
            query.as_str(),
        )
    }

    /// The suggestions the group dialog currently offers.
    pub fn group_suggestions(&self) -> (r: Vec<String>)
        ensures
            r.deep_view() == suggestions_spec(
                self.config.entries.deep_view(),
                self.dialog_members.deep_view(),
                editing_name_spec(*self),
                self.dialog_member_input@,
            ),
    {
        let editing = self.editing_group_name();
        self.compute_suggestions(editing.as_str())
    }
}

proof fn lemma_offerable_upto_members(
    es: Seq<EntryView>,
    lnames: Seq<Seq<char>>,
    members: Seq<Seq<char>>,
    editing: Seq<char>,
    query: Seq<char>,
    n: int,
)
    ensures
        forall|x: Seq<char>|
            #[trigger] offerable_upto(es, lnames, members, editing, query, n).contains(x) ==> x
                != editing && !members.contains(x) && !reaches(es, x, editing),
    decreases n,
{
    if n > 0 {
        lemma_offerable_upto_members(es, lnames, members, editing, query, n - 1);
        let r = offerable_upto(es, lnames, members, editing, query, n - 1);
        let full = offerable_upto(es, lnames, members, editing, query, n);
        assert forall|x: Seq<char>| #[trigger] full.contains(x) implies x != editing
            && !members.contains(x) && !reaches(es, x, editing) by {
            let q = choose|q: int| 0 <= q < full.len() && full[q] == x;
            if q < r.len() {
                assert(r[q] == x);
                assert(r.contains(x));
            }
        }
    }
}

/// While a group is edited, the dialog treats it as itself under the name it
/// is stored with, whatever the Name field now says: the member suggestions
/// never offer that name, nor any name from which membership leads back to
/// it, nor a name already among the members; so accepting a suggestion never
/// makes the group contain itself.
pub proof fn lemma_edit_suggestions_exclude_self_and_cycles(a: KeykoffApp, index: usize)
    requires
        a.mode == (AppMode::EditGroup { index }),
        index < a.config.entries@.len(),
        (a.config.entries.deep_view()[index as int] is Group),
    ensures
        editing_name_spec(a) == name_of(a.config.entries.deep_view()[index as int]),
        forall|x: Seq<char>|
            #[trigger] suggestions_spec(
                a.config.entries.deep_view(),
                a.dialog_members.deep_view(),
                editing_name_spec(a),
                a.dialog_member_input@,
            ).contains(x) ==> (x != name_of(a.config.entries.deep_view()[index as int]) && !reaches(
                a.config.entries.deep_view(),
                x,
                name_of(a.config.entries.deep_view()[index as int]),
            ) && !a.dialog_members.deep_view().contains(x)),
{
    let es = a.config.entries.deep_view();
    let t = name_of(es[index as int]);
    let ms = a.dialog_members.deep_view();
    let q = lowercase(trim_seq(a.dialog_member_input@));
    let all = suggestions_upto(es, ms, t, q, es.len() as int);
    lemma_offerable_upto_members(es, lowered_names(es), ms, t, q, es.len() as int);
    assert forall|x: Seq<char>| #[trigger] suggestions_spec(es, ms, editing_name_spec(a), a.dialog_member_input@).contains(x)
        implies x != t && !reaches(es, x, t) && !ms.contains(x) by {
        let sg = suggestions_spec(es, ms, editing_name_spec(a), a.dialog_member_input@);
        let k = choose|k: int| 0 <= k < sg.len() && sg[k] == x;
        if q.len() > 0 {
            if all.len() > 8 {
                assert(sg[k] == all[k]);
            }
            assert(all.contains(x));
        }
    }
}

} // verus!
