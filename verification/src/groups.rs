//! Reachability through group membership: cycle detection when editing a
//! group, and the programs that launching an entry starts, in launch order.

use vstd::prelude::*;
use crate::config::{
    has_name, is_first_match, lemma_first_match_unique, lemma_spec_find, members_of, name_of,
    spec_find, find_by_name, entry_name, rename_member, renamed_members_spec, Entry, EntryView,
    RunGroup,
};
use crate::text::str_eq;

verus! {

/// `b` is a member of the group that the name `a` resolves to.
pub open spec fn steps_to(es: Seq<EntryView>, a: Seq<char>, b: Seq<char>) -> bool {
    match spec_find(es, a) {
        Some(i) => members_of(es[i]).contains(b),
        None => false,
    }
}

/// Following at most `n` membership steps from the name `a` arrives at the name `b`.
pub open spec fn reaches_within(es: Seq<EntryView>, a: Seq<char>, b: Seq<char>, n: nat) -> bool
    decreases n,
{
    a == b || (n > 0 && exists|m: Seq<char>|
        #[trigger] steps_to(es, a, m) && reaches_within(es, m, b, (n - 1) as nat))
}

/// Following membership from the name `a` arrives at the name `b`.
pub open spec fn reaches(es: Seq<EntryView>, a: Seq<char>, b: Seq<char>) -> bool {
    exists|n: nat| reaches_within(es, a, b, n)
}

/// The number of `true` flags.
pub open spec fn count_true(s: Seq<bool>) -> nat
    decreases s.len(),
{
    if s.len() == 0 {
        0
    } else {
        count_true(s.drop_last()) + if s.last() {
            1nat
        } else {
            0nat
        }
    }
}

proof fn lemma_count_le(s: Seq<bool>)
    ensures
        count_true(s) <= s.len(),
    decreases s.len(),
{
    if s.len() > 0 {
        lemma_count_le(s.drop_last());
    }
}

proof fn lemma_count_set(s: Seq<bool>, i: int)
    requires
        0 <= i < s.len(),
        !s[i],
    ensures
        count_true(s.update(i, true)) == count_true(s) + 1,
    decreases s.len(),
{
    let u = s.update(i, true);
    if i == s.len() - 1 {
        assert(u.drop_last() =~= s.drop_last());
    } else {
        assert(u.drop_last() =~= s.drop_last().update(i, true));
        lemma_count_set(s.drop_last(), i);
    }
}

proof fn lemma_reaches_within_step(
    es: Seq<EntryView>,
    a: Seq<char>,
    x: Seq<char>,
    m: Seq<char>,
    n: nat,
)
    requires
        reaches_within(es, a, x, n),
        steps_to(es, x, m),
    ensures
        reaches_within(es, a, m, n + 1),
    decreases n,
{
    if a == x {
        assert(reaches_within(es, m, m, 0));
        assert(steps_to(es, a, m) && reaches_within(es, m, m, ((n + 1) - 1) as nat)) by {
            assert(reaches_within(es, m, m, n));
        }
    } else {
        let y = choose|y: Seq<char>|
            #[trigger] steps_to(es, a, y) && reaches_within(es, y, x, (n - 1) as nat);
        lemma_reaches_within_step(es, y, x, m, (n - 1) as nat);
        assert(steps_to(es, a, y) && reaches_within(es, y, m, ((n + 1) - 1) as nat));
    }
}

/// Extending a route by one membership step.
pub proof fn lemma_reaches_step(es: Seq<EntryView>, a: Seq<char>, x: Seq<char>, m: Seq<char>)
    requires
        reaches(es, a, x),
        steps_to(es, x, m),
    ensures
        reaches(es, a, m),
{
    let n = choose|n: nat| reaches_within(es, a, x, n);
    lemma_reaches_within_step(es, a, x, m, n);
}

/// The name `m` is not the target, and if it names an entry that entry was visited.
pub open spec fn covered(es: Seq<EntryView>, visited: Seq<bool>, target: Seq<char>, m: Seq<char>) -> bool {
    &&& m != target
    &&& match spec_find(es, m) {
        Some(j) => visited[j],
        None => true,
    }
}

/// Every member of entry `k` is covered.
pub open spec fn closed_at(es: Seq<EntryView>, visited: Seq<bool>, target: Seq<char>, k: int) -> bool {
    forall|m: Seq<char>| #[trigger] members_of(es[k]).contains(m) ==> covered(es, visited, target, m)
}

proof fn lemma_closed_unreachable(
    es: Seq<EntryView>,
    visited: Seq<bool>,
    target: Seq<char>,
    x: Seq<char>,
    n: nat,
)
    requires
        visited.len() == es.len(),
        forall|k: int| 0 <= k < es.len() && #[trigger] visited[k] ==> closed_at(es, visited, target, k),
        covered(es, visited, target, x),
    ensures
        !reaches_within(es, x, target, n),
    decreases n,
{
    if n > 0 {
        assert forall|m: Seq<char>| #[trigger] steps_to(es, x, m) implies !reaches_within(
            es,
            m,
            target,
            (n - 1) as nat,
        ) by {
            lemma_spec_find(es, x);
            let j = spec_find(es, x)->0;
            assert(visited[j]);
            assert(closed_at(es, visited, target, j));
            assert(members_of(es[j]).contains(m));
            lemma_closed_unreachable(es, visited, target, m, (n - 1) as nat);
        }
    }
}

/// Returns whether adding `candidate` to the members of the group named
/// `editing_group_name` would close a cycle: that is, whether following
/// membership from `candidate` arrives at `editing_group_name` (the candidate
/// being the group itself counts).
pub fn would_cycle(entries: &[Entry], editing_group_name: &str, candidate: &str) -> (r: bool)
    ensures
        r == reaches(entries.deep_view(), candidate@, editing_group_name@),
{
    let ghost es = entries.deep_view();
    let ghost t = editing_group_name@;
    let ghost c = candidate@;
    if str_eq(candidate, editing_group_name) {
        assert(reaches_within(es, c, t, 0));
        return true;
    }
    let start = match find_by_name(entries, candidate) {
        Some(i) => i,
        None => {
            proof {
                assert forall|n: nat| !reaches_within(es, c, t, n) by {
                    if n > 0 {
                        assert forall|m: Seq<char>| !(#[trigger] steps_to(es, c, m)) by {}
                    }
                }
            }
            return false;
        },
    };
    let n = entries.len();
    let mut visited: Vec<bool> = Vec::new();
    let mut z: usize = 0;
    while z < n
        invariant
            z <= n,
            visited@.len() == z,
            forall|k: int| 0 <= k < z ==> !(#[trigger] visited@[k]),
        decreases n - z,
    {
        visited.push(false);
        z = z + 1;
    }
    proof {
        assert(count_true(visited@) == 0) by {
            assert forall|len: int| 0 <= len <= n implies count_true(#[trigger] visited@.take(len)) == 0 by {
                lemma_count_prefix_false(visited@, len);
            }
            assert(visited@.take(n as int) =~= visited@);
        }
        lemma_count_set(visited@, start as int);
        lemma_first_match_unique(es, c, start as int);
        assert(reaches_within(es, c, c, 0));
    }
    visited.set(start, true);
    let mut count: usize = 1;
    let mut stack: Vec<usize> = Vec::new();
    stack.push(start);
    assert(stack@[0] == start);
    while stack.len() > 0
        invariant
            es == entries.deep_view(),
            n == es.len(),
            t == editing_group_name@,
            c == candidate@,
            c != t,
            visited@.len() == n,
            count == count_true(visited@),
            count <= n,
            0 <= start < n,
            spec_find(es, c) == Some(start as int),
            visited@[start as int],
            forall|q: int| 0 <= q < stack@.len() ==> #[trigger] stack@[q] < n && visited@[stack@[q] as int],
            forall|k: int|
                0 <= k < n && #[trigger] visited@[k] ==> spec_find(es, name_of(es[k])) == Some(k)
                    && reaches(es, c, name_of(es[k])),
            forall|k: int|
                0 <= k < n && #[trigger] visited@[k] ==> stack@.contains(k as usize) || closed_at(
                    es,
                    visited@,
                    t,
                    k,
                ),
        decreases n - count, stack@.len(),
    {
        proof {
            lemma_count_le(visited@);
        }
        let ghost old_stack = stack@;
        let i = stack.pop().unwrap();
        assert(old_stack == stack@.push(i));
        assert(visited@[i as int]);
        let ghost count_before = count;
        match &entries[i] {
            Entry::Group(g) => {
                assert(members_of(es[i as int]) == g.members.deep_view());
                let mut j: usize = 0;
                while j < g.members.len()
                    invariant
                        es == entries.deep_view(),
                        n == es.len(),
                        t == editing_group_name@,
                        c == candidate@,
                        c != t,
                        0 <= i < n,
                        members_of(es[i as int]) == g.members.deep_view(),
                        visited@.len() == n,
                        count == count_true(visited@),
                        count <= n,
                        count >= count_before,
                        count == count_before ==> stack@.len() + 1 == old_stack.len(),
                        0 <= start < n,
                        spec_find(es, c) == Some(start as int),
                        visited@[start as int],
                        visited@[i as int],
                        j <= g.members.len(),
                        forall|q: int| 0 <= q < stack@.len() ==> #[trigger] stack@[q] < n && visited@[stack@[q] as int],
                        forall|k: int|
                            0 <= k < n && #[trigger] visited@[k] ==> spec_find(es, name_of(es[k])) == Some(k)
                                && reaches(es, c, name_of(es[k])),
                        forall|k: int|
                            0 <= k < n && #[trigger] visited@[k] ==> k == i || stack@.contains(k as usize)
                                || closed_at(es, visited@, t, k),
                        forall|jj: int| 0 <= jj < j ==> covered(es, visited@, t, #[trigger] g.members.deep_view()[jj]),
                    decreases g.members.len() - j,
                {
                    let member: &String = &g.members[j];
                    let member_str: &str = member.as_str();
                    let ghost m = member_str@;
                    assert(g.members.deep_view()[j as int] == m);
                    assert(members_of(es[i as int]).contains(m));
                    if str_eq(member_str, editing_group_name) {
                        proof {
                            assert(m == t);
                            assert(steps_to(es, name_of(es[i as int]), m));
                            lemma_reaches_step(es, c, name_of(es[i as int]), m);
                        }
                        return true;
                    }
                    match find_by_name(entries, member_str) {
                        Some(k) => {
                            if !visited[k] {
                                proof {
                                    lemma_count_set(visited@, k as int);
                                    lemma_count_le(visited@.update(k as int, true));
                                    lemma_first_match_unique(es, m, k as int);
                                    assert(steps_to(es, name_of(es[i as int]), m));
                                    lemma_reaches_step(es, c, name_of(es[i as int]), m);
                                }
                                let ghost before = visited@;
                                let ghost before_stack = stack@;
                                visited.set(k, true);
                                count = count + 1;
                                stack.push(k);
                                proof {
                                    assert(visited@ == before.update(k as int, true));
                                    assert(stack@.drop_last() == before_stack);
                                    assert(spec_find(es, m) == Some(k as int));
                                    assert(m != t);
                                    assert(covered(es, visited@, t, m));
                                    assert forall|jj: int| 0 <= jj <= j implies covered(es, visited@, t, #[trigger] g.members.deep_view()[jj]) by {
                                        if jj < j {
                                            let mj = g.members.deep_view()[jj];
                                            assert(covered(es, before, t, mj));
                                            lemma_spec_find(es, mj);
                                            if let Some(j2) = spec_find(es, mj) {
                                                assert(visited@[j2]);
                                            }
                                        }
                                    }
                                    assert forall|kk: int| 0 <= kk < n && #[trigger] visited@[kk] implies kk == i || stack@.contains(kk as usize)
                                        || closed_at(es, visited@, t, kk) by {
                                        if kk == k {
                                            assert(stack@[stack@.len() - 1] == k);
                                        } else if before[kk] && kk != i {
                                            if before_stack.contains(kk as usize) {
                                                let q = choose|q: int| 0 <= q < before_stack.len() && before_stack[q] == kk as usize;
                                                assert(stack@[q] == kk as usize);
                                            } else {
                                                assert(closed_at(es, before, t, kk));
                                                assert forall|mm: Seq<char>| #[trigger] members_of(es[kk]).contains(mm) implies covered(es, visited@, t, mm) by {
                                                    assert(covered(es, before, t, mm));
                                                    lemma_spec_find(es, mm);
                                                    if let Some(j2) = spec_find(es, mm) {
                                                        assert(visited@[j2]);
                                                    }
                                                }
                                            }
                                        }
                                    }
                                }
                            } else {
                                proof {
                                    assert(spec_find(es, m) == Some(k as int));
                                    assert(covered(es, visited@, t, m));
                                }
                            }
                        },
                        None => {
                            assert(covered(es, visited@, t, m));
                        },
                    }
                    j = j + 1;
                }
                proof {
                    assert(closed_at(es, visited@, t, i as int)) by {
                        assert forall|mm: Seq<char>| #[trigger] members_of(es[i as int]).contains(mm) implies covered(es, visited@, t, mm) by {
                            let jj = choose|jj: int| 0 <= jj < g.members.deep_view().len() && g.members.deep_view()[jj] == mm;
                        }
                    }
                }
            },
            Entry::Program(_) => {
                assert(closed_at(es, visited@, t, i as int));
            },
        }
        proof {
            assert forall|k: int| 0 <= k < n && #[trigger] visited@[k] implies stack@.contains(k as usize) || closed_at(
                es,
                visited@,
                t,
                k,
            ) by {
                if k != i {
                    if old_stack.contains(k as usize) && !stack@.contains(k as usize) {
                        let q = choose|q: int| 0 <= q < old_stack.len() && old_stack[q] == k as usize;
                    }
                }
            }
        }
    }
    proof {
        assert forall|k: int| 0 <= k < n && #[trigger] visited@[k] implies closed_at(es, visited@, t, k) by {
            assert(!stack@.contains(k as usize));
        }
        assert forall|len: nat| !reaches_within(es, c, t, len) by {
            lemma_closed_unreachable(es, visited@, t, c, len);
        }
    }
    false
}

/// No membership step leads from a name back to that name: no group contains
/// itself, directly or through other groups.
pub open spec fn acyclic(es: Seq<EntryView>) -> bool {
    forall|a: Seq<char>, m: Seq<char>| #[trigger] steps_to(es, a, m) ==> !reaches(es, m, a)
}

/// A membership step followed by a route is a route.
pub proof fn lemma_reaches_prepend(es: Seq<EntryView>, x: Seq<char>, m: Seq<char>, y: Seq<char>)
    requires
        steps_to(es, x, m),
        reaches(es, m, y),
    ensures
        reaches(es, x, y),
{
    let n = choose|n: nat| reaches_within(es, m, y, n);
    assert(reaches_within(es, x, y, n + 1));
}

/// Two routes one after the other are a route.
pub proof fn lemma_reaches_trans(es: Seq<EntryView>, x: Seq<char>, y: Seq<char>, z: Seq<char>, n: nat)
    requires
        reaches_within(es, x, y, n),
        reaches(es, y, z),
    ensures
        reaches(es, x, z),
    decreases n,
{
    if x != y {
        let m = choose|m: Seq<char>|
            #[trigger] steps_to(es, x, m) && reaches_within(es, m, y, (n - 1) as nat);
        lemma_reaches_trans(es, m, y, z, (n - 1) as nat);
        lemma_reaches_prepend(es, x, m, z);
    }
}

proof fn lemma_reach_after_change(
    es: Seq<EntryView>,
    es2: Seq<EntryView>,
    t: Seq<char>,
    fresh: Set<Seq<char>>,
    x: Seq<char>,
    y: Seq<char>,
    n: nat,
)
    requires
        forall|a: Seq<char>, b: Seq<char>|
            #[trigger] steps_to(es2, a, b) ==> steps_to(es, a, b) || (a == t && fresh.contains(b)),
        forall|b: Seq<char>| #[trigger] fresh.contains(b) ==> !reaches(es, b, t),
        reaches_within(es2, x, y, n),
    ensures
        reaches(es, x, y) || (reaches(es, x, t) && exists|c: Seq<char>|
            #[trigger] fresh.contains(c) && reaches(es, c, y)),
    decreases n,
{
    if x == y {
        assert(reaches_within(es, x, y, 0));
    } else {
        let m = choose|m: Seq<char>|
            #[trigger] steps_to(es2, x, m) && reaches_within(es2, m, y, (n - 1) as nat);
        lemma_reach_after_change(es, es2, t, fresh, m, y, (n - 1) as nat);
        if steps_to(es, x, m) {
            if reaches(es, m, y) {
                lemma_reaches_prepend(es, x, m, y);
            } else {
                lemma_reaches_prepend(es, x, m, t);
            }
        } else {
            assert(x == t && fresh.contains(m));
            assert(reaches(es, m, y));
            assert(reaches_within(es, x, t, 0));
        }
    }
}

/// Changing group memberships keeps the groups free of cycles when every new
/// membership step leaves one name `t` for a name that does not lead back to `t`.
pub proof fn lemma_acyclic_after_change(
    es: Seq<EntryView>,
    es2: Seq<EntryView>,
    t: Seq<char>,
    fresh: Set<Seq<char>>,
)
    requires
        acyclic(es),
        forall|a: Seq<char>, b: Seq<char>|
            #[trigger] steps_to(es2, a, b) ==> steps_to(es, a, b) || (a == t && fresh.contains(b)),
        forall|b: Seq<char>| #[trigger] fresh.contains(b) ==> !reaches(es, b, t),
    ensures
        acyclic(es2),
{
    assert forall|a: Seq<char>, m: Seq<char>| #[trigger] steps_to(es2, a, m) implies !reaches(
        es2,
        m,
        a,
    ) by {
        if reaches(es2, m, a) {
            let n = choose|n: nat| reaches_within(es2, m, a, n);
            lemma_reach_after_change(es, es2, t, fresh, m, a, n);
            if steps_to(es, a, m) {
                if !reaches(es, m, a) {
                    let c = choose|c: Seq<char>| #[trigger] fresh.contains(c) && reaches(es, c, a);
                    lemma_reaches_prepend(es, a, m, t);
                    let n2 = choose|n2: nat| reaches_within(es, c, a, n2);
                    lemma_reaches_trans(es, c, a, t, n2);
                }
            } else {
                assert(a == t && fresh.contains(m));
            }
        }
    }
}

/// A name after renaming `old` to `new`, and back.
spec fn unrename(x: Seq<char>, old: Seq<char>, new: Seq<char>) -> Seq<char> {
    if x == new {
        old
    } else {
        x
    }
}

proof fn lemma_renamed_step_back(
    es2: Seq<EntryView>,
    es3: Seq<EntryView>,
    old: Seq<char>,
    new: Seq<char>,
    a: Seq<char>,
    b: Seq<char>,
)
    requires
        es3.len() == es2.len(),
        forall|k: int|
            0 <= k < es2.len() ==> name_of(#[trigger] es2[k]) != new && name_of(es3[k])
                == rename_member(name_of(es2[k]), old, new),
        forall|k: int|
            0 <= k < es2.len() ==> members_of(#[trigger] es3[k]) == renamed_members_spec(
                members_of(es2[k]),
                old,
                new,
            ),
        forall|k: int, m: Seq<char>|
            0 <= k < es2.len() && #[trigger] members_of(es2[k]).contains(m) ==> m != new,
        steps_to(es3, a, b),
    ensures
        steps_to(es2, unrename(a, old, new), unrename(b, old, new)),
{
    lemma_spec_find(es3, a);
    let k = spec_find(es3, a)->0;
    let a2 = unrename(a, old, new);
    assert(name_of(es3[k]) == a);
    assert(name_of(es2[k]) != new);
    assert(name_of(es2[k]) == a2);
    assert forall|j: int| 0 <= j < k implies name_of(#[trigger] es2[j]) != a2 by {
        assert(name_of(es2[j]) != new);
        assert(name_of(es3[j]) != a);
    }
    assert(is_first_match(es2, a2, k));
    lemma_first_match_unique(es2, a2, k);
    let ms = members_of(es2[k]);
    let q = choose|q: int| 0 <= q < members_of(es3[k]).len() && members_of(es3[k])[q] == b;
    assert(b == rename_member(ms[q], old, new));
    assert(ms.contains(ms[q]));
    assert(ms[q] != new);
    assert(unrename(b, old, new) == ms[q]);
}

proof fn lemma_renamed_reach_back(
    es2: Seq<EntryView>,
    es3: Seq<EntryView>,
    old: Seq<char>,
    new: Seq<char>,
    x: Seq<char>,
    y: Seq<char>,
    n: nat,
)
    requires
        es3.len() == es2.len(),
        forall|k: int|
            0 <= k < es2.len() ==> name_of(#[trigger] es2[k]) != new && name_of(es3[k])
                == rename_member(name_of(es2[k]), old, new),
        forall|k: int|
            0 <= k < es2.len() ==> members_of(#[trigger] es3[k]) == renamed_members_spec(
                members_of(es2[k]),
                old,
                new,
            ),
        forall|k: int, m: Seq<char>|
            0 <= k < es2.len() && #[trigger] members_of(es2[k]).contains(m) ==> m != new,
        reaches_within(es3, x, y, n),
    ensures
        reaches(es2, unrename(x, old, new), unrename(y, old, new)),
    decreases n,
{
    if x == y {
        assert(reaches_within(es2, unrename(x, old, new), unrename(y, old, new), 0));
    } else {
        let m = choose|m: Seq<char>|
            #[trigger] steps_to(es3, x, m) && reaches_within(es3, m, y, (n - 1) as nat);
        lemma_renamed_step_back(es2, es3, old, new, x, m);
        lemma_renamed_reach_back(es2, es3, old, new, m, y, (n - 1) as nat);
        lemma_reaches_prepend(es2, unrename(x, old, new), unrename(m, old, new), unrename(y, old, new));
    }
}

/// Renaming one name to a name that occurs nowhere keeps the groups free of
/// cycles: `es3` is `es2` with `old` renamed to `new` in entry names and
/// member names alike.
pub proof fn lemma_acyclic_after_rename(
    es2: Seq<EntryView>,
    es3: Seq<EntryView>,
    old: Seq<char>,
    new: Seq<char>,
)
    requires
        acyclic(es2),
        es3.len() == es2.len(),
        forall|k: int|
            0 <= k < es2.len() ==> name_of(#[trigger] es2[k]) != new && name_of(es3[k])
                == rename_member(name_of(es2[k]), old, new),
        forall|k: int|
            0 <= k < es2.len() ==> members_of(#[trigger] es3[k]) == renamed_members_spec(
                members_of(es2[k]),
                old,
                new,
            ),
        forall|k: int, m: Seq<char>|
            0 <= k < es2.len() && #[trigger] members_of(es2[k]).contains(m) ==> m != new,
    ensures
        acyclic(es3),
{
    assert forall|a: Seq<char>, m: Seq<char>| #[trigger] steps_to(es3, a, m) implies !reaches(
        es3,
        m,
        a,
    ) by {
        if reaches(es3, m, a) {
            let n = choose|n: nat| reaches_within(es3, m, a, n);
            lemma_renamed_step_back(es2, es3, old, new, a, m);
            lemma_renamed_reach_back(es2, es3, old, new, m, a, n);
        }
    }
}

/// Entries with the same names in the same places resolve every name alike.
pub proof fn lemma_spec_find_same_names(es: Seq<EntryView>, es2: Seq<EntryView>, name: Seq<char>)
    requires
        es.len() == es2.len(),
        forall|k: int| 0 <= k < es.len() ==> name_of(#[trigger] es2[k]) == name_of(es[k]),
    ensures
        spec_find(es2, name) == spec_find(es, name),
{
    lemma_spec_find(es, name);
    lemma_spec_find(es2, name);
    match spec_find(es2, name) {
        Some(k) => {
            assert(name_of(es2[k]) == name_of(es[k]));
            assert forall|j: int| 0 <= j < k implies name_of(#[trigger] es[j]) != name by {
                assert(name_of(es2[j]) == name_of(es[j]));
            }
            assert(is_first_match(es, name, k));
            lemma_first_match_unique(es, name, k);
        },
        None => {
            if has_name(es, name) {
                let k = choose|k: int| 0 <= k < es.len() && name_of(#[trigger] es[k]) == name;
                assert(name_of(es2[k]) == name);
            }
        },
    }
}

proof fn lemma_count_prefix_false(s: Seq<bool>, len: int)
    requires
        0 <= len <= s.len(),
        forall|k: int| 0 <= k < s.len() ==> !s[k],
    ensures
        count_true(s.take(len)) == 0,
    decreases len,
{
    if len > 0 {
        assert(s.take(len).drop_last() =~= s.take(len - 1));
        lemma_count_prefix_false(s, len - 1);
    }
}


/// Index `k` is a child of entry `i`: some member of entry `i` resolves to entry `k`.
pub open spec fn child_of(es: Seq<EntryView>, i: int, k: int) -> bool {
    &&& 0 <= i < es.len()
    &&& 0 <= k < es.len()
    &&& exists|m: Seq<char>| #[trigger] members_of(es[i]).contains(m) && spec_find(es, m) == Some(k)
}

/// Launching entry `s` passes from entry `i` on to entry `k`: `k` is a child of
/// `i` and does not carry the name of `s` (a name is only ever launched once).
pub open spec fn launch_step(es: Seq<EntryView>, s: int, i: int, k: int) -> bool {
    child_of(es, i, k) && name_of(es[k]) != name_of(es[s])
}

/// Launching entry `s` arrives at entry `k` within `n` steps.
pub open spec fn launch_reaches_within(es: Seq<EntryView>, s: int, k: int, n: nat) -> bool
    decreases n,
{
    k == s || (n > 0 && exists|i: int|
        launch_reaches_within(es, s, i, (n - 1) as nat) && #[trigger] launch_step(es, s, i, k))
}

/// Launching entry `s` arrives at entry `k`.
pub open spec fn launch_reaches(es: Seq<EntryView>, s: int, k: int) -> bool {
    exists|n: nat| launch_reaches_within(es, s, k, n)
}

/// The entry is a program.
pub open spec fn is_program(e: EntryView) -> bool {
    e is Program
}

proof fn lemma_launch_step(es: Seq<EntryView>, s: int, i: int, k: int)
    requires
        launch_reaches(es, s, i),
        launch_step(es, s, i, k),
    ensures
        launch_reaches(es, s, k),
{
    let n = choose|n: nat| launch_reaches_within(es, s, i, n);
    assert(launch_reaches_within(es, s, k, n + 1));
}

proof fn lemma_launch_complete(es: Seq<EntryView>, s: int, processed: Seq<bool>, k: int, n: nat)
    requires
        processed.len() == es.len(),
        0 <= s < es.len(),
        processed[s],
        forall|a: int, b: int|
            0 <= a < es.len() && #[trigger] processed[a] && #[trigger] child_of(es, a, b) ==> (0 <= b
                < es.len() && processed[b]) || name_of(es[b]) == name_of(es[s]),
        launch_reaches_within(es, s, k, n),
    ensures
        0 <= k < es.len() && processed[k],
    decreases n,
{
    if k != s {
        let i = choose|i: int|
            launch_reaches_within(es, s, i, (n - 1) as nat) && #[trigger] launch_step(es, s, i, k);
        lemma_launch_complete(es, s, processed, i, (n - 1) as nat);
    }
}

/// The number of the first `n` entries whose names are not in `visited`.
pub open spec fn unvisited(es: Seq<EntryView>, visited: Set<Seq<char>>, n: int) -> nat
    decreases n,
{
    if n <= 0 {
        0
    } else {
        unvisited(es, visited, n - 1) + if visited.contains(name_of(es[n - 1])) {
            0nat
        } else {
            1nat
        }
    }
}

/// Visiting more names leaves no more entries unvisited.
pub proof fn lemma_unvisited_mono(es: Seq<EntryView>, v: Set<Seq<char>>, w: Set<Seq<char>>, n: int)
    requires
        v.subset_of(w),
    ensures
        unvisited(es, w, n) <= unvisited(es, v, n),
    decreases n,
{
    if n > 0 {
        lemma_unvisited_mono(es, v, w, n - 1);
    }
}

/// Visiting the name of an unvisited entry leaves fewer entries unvisited.
pub proof fn lemma_unvisited_insert(es: Seq<EntryView>, v: Set<Seq<char>>, i: int, n: int)
    requires
        0 <= i < n,
        !v.contains(name_of(es[i])),
    ensures
        unvisited(es, v.insert(name_of(es[i])), n) < unvisited(es, v, n),
    decreases n,
{
    lemma_unvisited_mono(es, v, v.insert(name_of(es[i])), n - 1);
    if i < n - 1 {
        lemma_unvisited_insert(es, v, i, n - 1);
    }
}

/// Launching entry `i` depth-first when the names in `visited` have already
/// been visited: the positions of the programs started, in order, and the
/// names visited on the way. A position past the entries, or an entry whose
/// name was visited, starts nothing; a program starts itself; a group visits
/// its members in their order, each member name standing for the first entry
/// that carries it (a name that no entry carries is skipped).
pub open spec fn launch_visit(es: Seq<EntryView>, i: int, visited: Set<Seq<char>>) -> (
    Seq<usize>,
    Set<Seq<char>>,
)
    decreases unvisited(es, visited, es.len() as int), 0nat,
{
    if !(0 <= i < es.len()) || visited.contains(name_of(es[i])) {
        (Seq::empty(), Set::empty())
    } else {
        match es[i] {
            EntryView::Program(_) => (seq![i as usize], set![name_of(es[i])]),
            EntryView::Group(g) => {
                proof {
                    lemma_unvisited_insert(es, visited, i, es.len() as int);
                }
                let r = launch_visit_members(es, g.members, visited.insert(name_of(es[i])));
                (r.0, r.1.insert(name_of(es[i])))
            },
        }
    }
}

/// Visiting the member names `ms` in order (see `launch_visit`), each after
/// the names the earlier ones visited.
pub open spec fn launch_visit_members(
    es: Seq<EntryView>,
    ms: Seq<Seq<char>>,
    visited: Set<Seq<char>>,
) -> (Seq<usize>, Set<Seq<char>>)
    decreases unvisited(es, visited, es.len() as int), ms.len(),
{
    if ms.len() == 0 {
        (Seq::empty(), Set::empty())
    } else {
        let first = match spec_find(es, ms[0]) {
            Some(k) => launch_visit(es, k, visited),
            None => (Seq::empty(), Set::empty()),
        };
        proof {
            lemma_unvisited_mono(es, visited, visited.union(first.1), es.len() as int);
        }
        let rest = launch_visit_members(es, ms.drop_first(), visited.union(first.1));
        (first.0 + rest.0, first.1.union(rest.1))
    }
}

/// The programs that launching entry `start` starts, in the order they start:
/// a depth-first walk from `start` over group members in their listed order,
/// where every name is visited at most once.
pub open spec fn launch_order(es: Seq<EntryView>, start: int) -> Seq<usize> {
    launch_visit(es, start, Set::empty()).0
}

/// The programs still to come from a stack of positions: the last position is
/// taken first and visited depth-first, then the rest after the names it visited.
spec fn pending(es: Seq<EntryView>, stack: Seq<usize>, visited: Set<Seq<char>>) -> Seq<usize>
    decreases stack.len(),
{
    if stack.len() == 0 {
        Seq::empty()
    } else {
        let top = launch_visit(es, stack.last() as int, visited);
        top.0 + pending(es, stack.drop_last(), visited.union(top.1))
    }
}

/// What pushing a group's member names leaves on top of a stack: the positions
/// they stand for, the first member on top.
spec fn pushed(es: Seq<EntryView>, ms: Seq<Seq<char>>) -> Seq<usize>
    decreases ms.len(),
{
    if ms.len() == 0 {
        Seq::empty()
    } else {
        pushed(es, ms.drop_first()) + match spec_find(es, ms[0]) {
            Some(k) => seq![k as usize],
            None => Seq::empty(),
        }
    }
}

/// The names of the entries marked in `processed`.
spec fn names_where(es: Seq<EntryView>, processed: Seq<bool>) -> Set<Seq<char>> {
    Set::new(
        |n: Seq<char>|
            exists|k: int| 0 <= k < es.len() && #[trigger] processed[k] && name_of(es[k]) == n,
    )
}

proof fn lemma_pending_pushed(
    es: Seq<EntryView>,
    stack: Seq<usize>,
    ms: Seq<Seq<char>>,
    visited: Set<Seq<char>>,
)
    requires
        es.len() <= usize::MAX,
    ensures
        pending(es, stack + pushed(es, ms), visited) == launch_visit_members(es, ms, visited).0
            + pending(es, stack, visited.union(launch_visit_members(es, ms, visited).1)),
    decreases ms.len(),
{
    if ms.len() == 0 {
        assert(stack + pushed(es, ms) =~= stack);
        assert(visited.union(Set::<Seq<char>>::empty()) =~= visited);
        assert(launch_visit_members(es, ms, visited).0 =~= Seq::<usize>::empty());
        assert(Seq::<usize>::empty() + pending(es, stack, visited) =~= pending(es, stack, visited));
    } else {
        let rest = ms.drop_first();
        let m = launch_visit_members(es, ms, visited);
        lemma_spec_find(es, ms[0]);
        match spec_find(es, ms[0]) {
            Some(k) => {
                let top = launch_visit(es, k, visited);
                let v1 = visited.union(top.1);
                let mr = launch_visit_members(es, rest, v1);
                let s = stack + pushed(es, ms);
                assert(s =~= (stack + pushed(es, rest)).push(k as usize));
                assert(s.drop_last() =~= stack + pushed(es, rest));
                assert(s.last() == k as usize);
                lemma_pending_pushed(es, stack, rest, v1);
                assert(v1.union(mr.1) =~= visited.union(top.1.union(mr.1)));
                assert(m.0 == top.0 + mr.0);
                assert(pending(es, s, visited) =~= top.0 + (mr.0 + pending(es, stack, v1.union(mr.1))));
                assert(top.0 + (mr.0 + pending(es, stack, v1.union(mr.1))) =~= (top.0 + mr.0) + pending(es, stack, v1.union(mr.1)));
            },
            None => {
                assert(stack + pushed(es, ms) =~= stack + pushed(es, rest));
                assert(visited.union(Set::<Seq<char>>::empty()) =~= visited);
                let mr = launch_visit_members(es, rest, visited);
                lemma_pending_pushed(es, stack, rest, visited);
                assert(m.0 =~= mr.0);
                assert(m.1 =~= mr.1);
            },
        }
    }
}

proof fn lemma_names_where_insert(es: Seq<EntryView>, processed: Seq<bool>, idx: int)
    requires
        processed.len() == es.len(),
        0 <= idx < es.len(),
    ensures
        names_where(es, processed.update(idx, true)) == names_where(es, processed).insert(
            name_of(es[idx]),
        ),
{
    let after = processed.update(idx, true);
    assert forall|n: Seq<char>| #[trigger] names_where(es, after).contains(n) <==> names_where(
        es,
        processed,
    ).insert(name_of(es[idx])).contains(n) by {
        if names_where(es, after).contains(n) {
            let k = choose|k: int| 0 <= k < es.len() && #[trigger] after[k] && name_of(es[k]) == n;
            if k != idx {
                assert(processed[k]);
            }
        }
        if names_where(es, processed).contains(n) {
            let k = choose|k: int| 0 <= k < es.len() && #[trigger] processed[k] && name_of(es[k]) == n;
            assert(after[k]);
        }
        if n == name_of(es[idx]) {
            assert(after[idx]);
        }
    }
    assert(names_where(es, after) =~= names_where(es, processed).insert(name_of(es[idx])));
}

proof fn lemma_names_where_none(es: Seq<EntryView>, processed: Seq<bool>)
    requires
        forall|k: int| 0 <= k < processed.len() ==> !processed[k],
        processed.len() == es.len(),
    ensures
        names_where(es, processed) == Set::<Seq<char>>::empty(),
{
    assert(names_where(es, processed) =~= Set::<Seq<char>>::empty());
}

/// A popped position is skipped exactly when its name was already visited.
proof fn lemma_skip_is_visited(es: Seq<EntryView>, s: int, processed: Seq<bool>, idx: int)
    requires
        processed.len() == es.len(),
        0 <= s < es.len(),
        0 <= idx < es.len(),
        processed[s],
        spec_find(es, name_of(es[idx])) == Some(idx),
        forall|k: int|
            0 <= k < es.len() && #[trigger] processed[k] ==> k == s || spec_find(es, name_of(es[k]))
                == Some(k),
    ensures
        names_where(es, processed).contains(name_of(es[idx])) <==> (processed[idx] || (idx != s
            && name_of(es[idx]) == name_of(es[s]))),
{
    if processed[idx] {
        assert(names_where(es, processed).contains(name_of(es[idx])));
    }
    if idx != s && name_of(es[idx]) == name_of(es[s]) {
        assert(names_where(es, processed).contains(name_of(es[idx])));
    }
}

/// Returns the positions of the programs that launching entry `start_index`
/// starts: the entry itself if it is a program, otherwise every program
/// reachable through group membership, each once. A member name that resolves
/// to nothing is skipped, and a name already launched is not followed again,
/// so cycles end.
pub fn flatten_group_to_programs(entries: &[Entry], start_index: usize) -> (r: Vec<usize>)
    ensures
        start_index >= entries@.len() ==> r@.len() == 0,
        r@.no_duplicates(),
        forall|q: int|
            0 <= q < r@.len() ==> #[trigger] r@[q] < entries@.len() && is_program(
                entries.deep_view()[r@[q] as int],
            ) && launch_reaches(entries.deep_view(), start_index as int, r@[q] as int),
        start_index < entries@.len() ==> forall|k: int|
            0 <= k < entries@.len() && is_program(entries.deep_view()[k]) && #[trigger] launch_reaches(
                entries.deep_view(),
                start_index as int,
                k,
            ) ==> r@.contains(k as usize),
        start_index < entries@.len() && is_program(entries.deep_view()[start_index as int]) ==> r@
            == seq![start_index],
        r@ == launch_order(entries.deep_view(), start_index as int),
{
    let ghost es = entries.deep_view();
    let n = entries.len();
    let mut result: Vec<usize> = Vec::new();
    if start_index >= n {
        assert(result@ =~= launch_order(es, start_index as int));
        return result;
    }
    let ghost s = start_index as int;
    let mut processed: Vec<bool> = Vec::new();
    let mut z: usize = 0;
    while z < n
        invariant
            z <= n,
            processed@.len() == z,
            forall|k: int| 0 <= k < z ==> !(#[trigger] processed@[k]),
        decreases n - z,
    {
        processed.push(false);
        z = z + 1;
    }
    proof {
        lemma_all_false_count(processed@);
        lemma_count_set(processed@, s);
        assert(launch_reaches_within(es, s, s, 0));
        lemma_names_where_none(es, processed@);
        lemma_names_where_insert(es, processed@, s);
    }
    processed.set(start_index, true);
    assert(names_where(es, processed@) == Set::<Seq<char>>::empty().insert(name_of(es[s])));
    let mut count: usize = 1;
    let mut stack: Vec<usize> = Vec::new();
    match &entries[start_index] {
        Entry::Program(_) => {
            result.push(start_index);
            assert(result@ == seq![start_index]);
            assert(result@ =~= launch_order(es, s));
            proof {
                assert forall|k: int|
                    0 <= k < n && is_program(es[k]) && #[trigger] launch_reaches(es, s, k) implies result@.contains(k as usize) by {
                    let len = choose|len: nat| launch_reaches_within(es, s, k, len);
                    if k != s {
                        let i = choose|i: int|
                            launch_reaches_within(es, s, i, (len - 1) as nat) && #[trigger] launch_step(es, s, i, k);
                        lemma_launch_only_start_from_program(es, s, i, (len - 1) as nat);
                        assert(child_of(es, s, k));
                        let m = choose|m: Seq<char>| #[trigger] members_of(es[s]).contains(m) && spec_find(es, m) == Some(k);
                    }
                    assert(result@[0] == start_index);
                }
            }
            return result;
        },
        Entry::Group(g) => {
            push_children(entries, g, &mut stack, Ghost(s));
            proof {
                let v0 = names_where(es, processed@);
                assert(stack@ =~= Seq::<usize>::empty() + pushed(es, g.members.deep_view()));
                lemma_pending_pushed(es, Seq::<usize>::empty(), g.members.deep_view(), v0);
                assert(launch_order(es, s) == launch_visit_members(es, g.members.deep_view(), v0).0);
                assert(result@ + pending(es, stack@, v0) =~= launch_order(es, s));
            }
        },
    }
    assert(!is_program(es[s]));
    while stack.len() > 0
        invariant
            es == entries.deep_view(),
            n == es.len(),
            0 <= s < n,
            s == start_index as int,
            !is_program(es[s]),
            processed@.len() == n,
            count == count_true(processed@),
            count <= n,
            processed@[s],
            forall|q: int| 0 <= q < stack@.len() ==> #[trigger] stack@[q] < n,
            forall|q: int|
                0 <= q < stack@.len() ==> launch_reaches(es, s, #[trigger] stack@[q] as int) || name_of(
                    es[stack@[q] as int],
                ) == name_of(es[s]),
            forall|k: int| 0 <= k < n && #[trigger] processed@[k] ==> launch_reaches(es, s, k),
            forall|a: int, b: int|
                0 <= a < n && #[trigger] processed@[a] && #[trigger] child_of(es, a, b) ==> stack@.contains(
                    b as usize,
                ) || (0 <= b < n && processed@[b]) || name_of(es[b]) == name_of(es[s]),
            result@.no_duplicates(),
            forall|q: int|
                0 <= q < result@.len() ==> #[trigger] result@[q] < n && processed@[result@[q] as int]
                    && is_program(es[result@[q] as int]),
            forall|k: int|
                0 <= k < n && #[trigger] processed@[k] && is_program(es[k]) ==> result@.contains(
                    k as usize,
                ),
            result@ + pending(es, stack@, names_where(es, processed@)) == launch_order(es, s),
            forall|k: int|
                0 <= k < n && #[trigger] processed@[k] ==> k == s || spec_find(es, name_of(es[k]))
                    == Some(k),
            forall|q: int|
                0 <= q < stack@.len() ==> spec_find(es, name_of(es[#[trigger] stack@[q] as int]))
                    == Some(stack@[q] as int),
        decreases n - count, stack@.len(),
    {
        proof {
            lemma_count_le(processed@);
        }
        let ghost old_stack = stack@;
        let idx = stack.pop().unwrap();
        assert(old_stack == stack@.push(idx));
        assert(old_stack[old_stack.len() - 1] == idx);
        let ghost pre_processed = processed@;
        let ghost pre_result = result@;
        let ghost v = names_where(es, processed@);
        let ghost top = launch_visit(es, idx as int, v);
        proof {
            assert(spec_find(es, name_of(es[idx as int])) == Some(idx as int));
            lemma_skip_is_visited(es, s, processed@, idx as int);
            assert(old_stack.drop_last() =~= stack@);
            assert(pending(es, old_stack, v) == top.0 + pending(es, stack@, v.union(top.1)));
        }
        let skip = processed[idx] || (idx != start_index && str_eq(
            entry_name(&entries[idx]),
            entry_name(&entries[start_index]),
        ));
        if skip {
            proof {
                assert(v.contains(name_of(es[idx as int])));
                assert(v.union(top.1) =~= v);
                assert(top.0 + pending(es, stack@, v) =~= pending(es, stack@, v));
                assert forall|a: int, b: int| 0 <= a < n && #[trigger] processed@[a] && #[trigger] child_of(es, a, b)
                    implies stack@.contains(b as usize) || (0 <= b < n && processed@[b]) || name_of(es[b]) == name_of(es[s]) by {
                    if old_stack.contains(b as usize) && b != idx as int {
                        let q = choose|q: int| 0 <= q < old_stack.len() && old_stack[q] == b as usize;
                        assert(stack@[q] == b as usize);
                    }
                }
            }
        } else {
            proof {
                assert(launch_reaches(es, s, idx as int));
                lemma_count_set(processed@, idx as int);
                lemma_count_le(processed@.update(idx as int, true));
                lemma_names_where_insert(es, processed@, idx as int);
                assert(!v.contains(name_of(es[idx as int])));
            }
            processed.set(idx, true);
            count = count + 1;
            match &entries[idx] {
                Entry::Program(_) => {
                    proof {
                        if result@.contains(idx) {
                            let q = choose|q: int| 0 <= q < result@.len() && result@[q] == idx;
                        }
                    }
                    result.push(idx);
                    proof {
                        let vn = v.insert(name_of(es[idx as int]));
                        assert(top == (seq![idx], set![name_of(es[idx as int])]));
                        assert(v.union(top.1) =~= vn);
                        assert(result@ + pending(es, stack@, vn) =~= pre_result + (top.0 + pending(es, stack@, vn)));
                        assert forall|a: int, b: int| 0 <= a < n && #[trigger] processed@[a] && #[trigger] child_of(es, a, b)
                            implies stack@.contains(b as usize) || (0 <= b < n && processed@[b]) || name_of(es[b]) == name_of(es[s]) by {
                            if a == idx as int {
                                let m = choose|m: Seq<char>| #[trigger] members_of(es[a]).contains(m) && spec_find(es, m) == Some(b);
                            } else {
                                assert(pre_processed[a]);
                                if old_stack.contains(b as usize) && b != idx as int {
                                    let q = choose|q: int| 0 <= q < old_stack.len() && old_stack[q] == b as usize;
                                    assert(stack@[q] == b as usize);
                                }
                            }
                        }
                        assert forall|k: int| 0 <= k < n && #[trigger] processed@[k] && is_program(es[k]) implies result@.contains(k as usize) by {
                            if k == idx as int {
                                assert(result@[result@.len() - 1] == idx);
                            } else {
                                assert(pre_processed[k]);
                                let q = choose|q: int| 0 <= q < pre_result.len() && pre_result[q] == k as usize;
                                assert(result@[q] == k as usize);
                            }
                        }
                    }
                },
                Entry::Group(g) => {
                    let ghost mid_stack = stack@;
                    push_children(entries, g, &mut stack, Ghost(s));
                    proof {
                        let name = name_of(es[idx as int]);
                        let vn = v.insert(name);
                        let m = launch_visit_members(es, g.members.deep_view(), vn);
                        assert(es[idx as int] == EntryView::Group(g@));
                        assert(top == (m.0, m.1.insert(name)));
                        lemma_pending_pushed(es, mid_stack, g.members.deep_view(), vn);
                        assert(vn.union(m.1) =~= v.union(m.1.insert(name)));
                        assert(result@ + pending(es, stack@, vn) =~= pre_result + (top.0 + pending(es, stack@.subrange(0, mid_stack.len() as int), v.union(top.1)))) by {
                            assert(stack@.subrange(0, mid_stack.len() as int) =~= mid_stack);
                        }
                        assert forall|a: int, b: int| 0 <= a < n && #[trigger] processed@[a] && #[trigger] child_of(es, a, b)
                            implies stack@.contains(b as usize) || (0 <= b < n && processed@[b]) || name_of(es[b]) == name_of(es[s]) by {
                            if a == idx as int {
                                let m = choose|m: Seq<char>| #[trigger] members_of(es[a]).contains(m) && spec_find(es, m) == Some(b);
                                assert(g.members.deep_view() == members_of(es[a]));
                            } else {
                                assert(pre_processed[a]);
                                if old_stack.contains(b as usize) && b != idx as int {
                                    let q = choose|q: int| 0 <= q < old_stack.len() && old_stack[q] == b as usize;
                                    assert(mid_stack[q] == b as usize);
                                    assert(stack@[q] == b as usize);
                                }
                            }
                        }
                        assert forall|k: int| 0 <= k < n && #[trigger] processed@[k] && is_program(es[k]) implies result@.contains(k as usize) by {
                            assert(pre_processed[k]);
                        }
                    }
                },
            }
        }
    }
    proof {
        assert forall|k: int|
            0 <= k < n && is_program(es[k]) && #[trigger] launch_reaches(es, s, k) implies result@.contains(k as usize) by {
            let len = choose|len: nat| launch_reaches_within(es, s, k, len);
            assert forall|a: int, b: int|
                0 <= a < n && #[trigger] processed@[a] && #[trigger] child_of(es, a, b) implies (0 <= b
                    < n && processed@[b]) || name_of(es[b]) == name_of(es[s]) by {
                assert(!stack@.contains(b as usize));
            }
            lemma_launch_complete(es, s, processed@, k, len);
        }
    }
    result
}

proof fn lemma_launch_only_start_from_program(es: Seq<EntryView>, s: int, i: int, n: nat)
    requires
        0 <= s < es.len(),
        is_program(es[s]),
        launch_reaches_within(es, s, i, n),
    ensures
        i == s,
    decreases n,
{
    if i != s {
        let p = choose|p: int|
            launch_reaches_within(es, s, p, (n - 1) as nat) && #[trigger] launch_step(es, s, p, i);
        lemma_launch_only_start_from_program(es, s, p, (n - 1) as nat);
        let m = choose|m: Seq<char>| #[trigger] members_of(es[p]).contains(m) && spec_find(es, m) == Some(i);
    }
}

proof fn lemma_all_false_count(s: Seq<bool>)
    requires
        forall|k: int| 0 <= k < s.len() ==> !s[k],
    ensures
        count_true(s) == 0,
{
    lemma_count_prefix_false(s, s.len() as int);
    assert(s.take(s.len() as int) =~= s);
}

/// Pushes the resolved members of group `g` (last member first, so that the
/// first member is taken off the stack first).
fn push_children(entries: &[Entry], g: &RunGroup, stack: &mut Vec<usize>, s: Ghost<int>)
    requires
        0 <= s@ < entries@.len(),
        exists|i: int|
            0 <= i < entries@.len() && entries.deep_view()[i] == EntryView::Group(g@) && launch_reaches(
                entries.deep_view(),
                s@,
                i,
            ),
        forall|q: int| 0 <= q < old(stack)@.len() ==> #[trigger] old(stack)@[q] < entries@.len(),
    ensures
        final(stack)@.len() >= old(stack)@.len(),
        forall|q: int| 0 <= q < old(stack)@.len() ==> #[trigger] final(stack)@[q] == old(stack)@[q],
        forall|q: int| 0 <= q < final(stack)@.len() ==> #[trigger] final(stack)@[q] < entries@.len(),
        forall|q: int|
            old(stack)@.len() <= q < final(stack)@.len() ==> launch_reaches(
                entries.deep_view(),
                s@,
                #[trigger] final(stack)@[q] as int,
            ) || name_of(entries.deep_view()[final(stack)@[q] as int]) == name_of(
                entries.deep_view()[s@],
            ),
        forall|m: Seq<char>|
            #[trigger] g.members.deep_view().contains(m) ==> match spec_find(entries.deep_view(), m) {
                Some(k) => final(stack)@.contains(k as usize),
                None => true,
            },
        final(stack)@ == old(stack)@ + pushed(entries.deep_view(), g.members.deep_view()),
        forall|q: int|
            old(stack)@.len() <= q < final(stack)@.len() ==> spec_find(
                entries.deep_view(),
                name_of(entries.deep_view()[#[trigger] final(stack)@[q] as int]),
            ) == Some(final(stack)@[q] as int),
{
    let ghost es = entries.deep_view();
    let ghost i = choose|i: int|
        0 <= i < entries@.len() && entries.deep_view()[i] == EntryView::Group(g@) && launch_reaches(
            entries.deep_view(),
            s@,
            i,
        );
    let ghost pre = stack@;
    let mut j: usize = g.members.len();
    while j > 0
        invariant
            es == entries.deep_view(),
            0 <= s@ < es.len(),
            0 <= i < es.len(),
            es[i] == EntryView::Group(g@),
            launch_reaches(es, s@, i),
            j <= g.members.len(),
            stack@.len() >= pre.len(),
            forall|q: int| 0 <= q < pre.len() ==> #[trigger] stack@[q] == pre[q],
            forall|q: int| 0 <= q < stack@.len() ==> #[trigger] stack@[q] < es.len(),
            forall|q: int|
                pre.len() <= q < stack@.len() ==> launch_reaches(es, s@, #[trigger] stack@[q] as int)
                    || name_of(es[stack@[q] as int]) == name_of(es[s@]),
            forall|jj: int|
                j <= jj < g.members.len() ==> match spec_find(es, #[trigger] g.members.deep_view()[jj]) {
                    Some(k) => stack@.contains(k as usize),
                    None => true,
                },
            stack@ == pre + pushed(es, g.members.deep_view().subrange(j as int, g.members@.len() as int)),
            forall|q: int|
                pre.len() <= q < stack@.len() ==> spec_find(es, name_of(es[#[trigger] stack@[q] as int]))
                    == Some(stack@[q] as int),
        decreases j,
    {
        let ghost tail = g.members.deep_view().subrange(j as int, g.members@.len() as int);
        j = j - 1;
        let member: &String = &g.members[j];
        let member_str: &str = member.as_str();
        assert(g.members.deep_view()[j as int] == member_str@);
        let ghost tail2 = g.members.deep_view().subrange(j as int, g.members@.len() as int);
        assert(tail2.drop_first() =~= tail);
        assert(tail2[0] == member_str@);
        assert(pushed(es, tail2) == pushed(es, tail) + match spec_find(es, member_str@) {
            Some(k) => seq![k as usize],
            None => Seq::<usize>::empty(),
        });
        proof {
            lemma_spec_find(es, member_str@);
        }
        match find_by_name(entries, member_str) {
            Some(k) => {
                proof {
                    assert(members_of(es[i]).contains(member_str@));
                    assert(child_of(es, i, k as int));
                    if name_of(es[k as int]) != name_of(es[s@]) {
                        lemma_launch_step(es, s@, i, k as int);
                    }
                }
                let ghost before = stack@;
                stack.push(k);
                proof {
                    assert(stack@ =~= pre + pushed(es, tail2));
                    assert(name_of(es[k as int]) == member_str@);
                    assert(stack@[stack@.len() - 1] == k);
                    assert forall|jj: int| j <= jj < g.members.len() implies match spec_find(es, #[trigger] g.members.deep_view()[jj]) {
                        Some(k2) => stack@.contains(k2 as usize),
                        None => true,
                    } by {
                        if jj > j {
                            if let Some(k2) = spec_find(es, g.members.deep_view()[jj]) {
                                let q = choose|q: int| 0 <= q < before.len() && before[q] == k2 as usize;
                                assert(stack@[q] == k2 as usize);
                            }
                        }
                    }
                }
            },
            None => {
                assert(stack@ =~= pre + pushed(es, tail2));
            },
        }
    }
    assert(g.members.deep_view().subrange(0, g.members@.len() as int) =~= g.members.deep_view());
    proof {
        assert forall|m: Seq<char>| #[trigger] g.members.deep_view().contains(m) implies match spec_find(es, m) {
            Some(k) => stack@.contains(k as usize),
            None => true,
        } by {
            let jj = choose|jj: int| 0 <= jj < g.members.deep_view().len() && g.members.deep_view()[jj] == m;
        }
    }
}

} // verus!
