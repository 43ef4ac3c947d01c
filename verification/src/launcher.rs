//! Turning a program entry into what the operating system is asked to start.

use vstd::prelude::*;
use crate::config::RunConfig;
use crate::text::{chars_of, char_is_whitespace, append_str, is_white_space, string_push};

verus! {

/// The whitespace-separated words of a text, in order (as `str::split_whitespace` yields them).
pub open spec fn words(s: Seq<char>) -> Seq<Seq<char>>
    decreases s.len(),
{
    if s.len() == 0 {
        Seq::empty()
    } else {
        let w = words(s.drop_last());
        let c = s.last();
        if is_white_space(c) {
            w
        } else if s.len() >= 2 && !is_white_space(s[s.len() - 2]) {
            w.update(w.len() - 1, w.last().push(c))
        } else {
            w.push(seq![c])
        }
    }
}

proof fn lemma_words_nonempty(s: Seq<char>)
    requires
        s.len() > 0,
        !is_white_space(s.last()),
    ensures
        words(s).len() > 0,
    decreases s.len(),
{
    if s.len() >= 2 && !is_white_space(s[s.len() - 2]) {
        assert(s.drop_last().last() == s[s.len() - 2]);
        lemma_words_nonempty(s.drop_last());
    }
}

/// Splits a text at whitespace, dropping empty pieces.
pub fn split_words(s: &str) -> (r: Vec<String>)
    ensures
        r.deep_view() == words(s@),
{
    let cs = chars_of(s);
    let mut r: Vec<String> = Vec::new();
    let mut i: usize = 0;
    assert(cs@.take(0) =~= Seq::<char>::empty());
    while i < cs.len()
        invariant
            cs@ == s@,
            i <= cs.len(),
            r.deep_view() == words(cs@.take(i as int)),
        decreases cs.len() - i,
    {
        let c = cs[i];
        let ghost prefix = cs@.take(i as int);
        let ghost next = cs@.take(i + 1);
        assert(next.drop_last() =~= prefix);
        assert(next.last() == c);
        if !char_is_whitespace(c) {
            if i > 0 && !char_is_whitespace(cs[i - 1]) {
                proof {
                    assert(prefix.last() == cs@[i - 1]);
                    lemma_words_nonempty(prefix);
                    assert(next[next.len() - 2] == cs@[i - 1]);
                }
                let ghost before = r.deep_view();
                let mut last = r.pop().unwrap();
                string_push(&mut last, c);
                r.push(last);
                assert(r.deep_view() =~= before.update(before.len() - 1, before.last().push(c)));
            } else {
                let mut w = String::new();
                string_push(&mut w, c);
                let ghost before = r.deep_view();
                r.push(w);
                proof {
                    if i > 0 {
                        assert(next[next.len() - 2] == cs@[i - 1]);
                    }
                    assert(w@ =~= seq![c]);
                }
                assert(r.deep_view() =~= before.push(seq![c]));
            }
        }
        i = i + 1;
    }
    assert(cs@.take(i as int) =~= cs@);
    r
}

/// What is handed to the operating system to start a program.
pub struct LaunchPlan {
    pub executable: String,
    pub args: Vec<String>,
    pub working_directory: Option<String>,
}

/// The message shown when a program's working directory is missing.
pub open spec fn missing_directory_message(dir: Seq<char>) -> Seq<char> {
    "Working directory does not exist: "@ + dir
}

/// The message shown when the operating system refuses to start a program.
pub open spec fn spawn_failure_message(executable: Seq<char>, detail: Seq<char>) -> Seq<char> {
    "Failed to launch '"@ + executable + "': "@ + detail
}

/// Decides how to start a program: its executable, the whitespace-separated
/// words of its parameters as arguments, and its working directory when one is
/// set. Fails, with the message naming the directory, exactly when a working
/// directory is set and `working_directory_exists` says it is missing.
pub fn launch(entry: &RunConfig, working_directory_exists: bool) -> (r: Result<LaunchPlan, String>)
    ensures
        match r {
            Ok(plan) => {
                &&& (entry.working_directory@.len() == 0 || working_directory_exists)
                &&& plan.executable@ == entry.executable@
                &&& plan.args.deep_view() == words(entry.parameters@)
                &&& match plan.working_directory {
                    Some(d) => entry.working_directory@.len() > 0 && d@ == entry.working_directory@,
                    None => entry.working_directory@.len() == 0,
                }
            },
            Err(msg) => {
                &&& entry.working_directory@.len() > 0
                &&& !working_directory_exists
                &&& msg@ == missing_directory_message(entry.working_directory@)
            },
        },
{
    let args = if entry.parameters.as_str().is_empty() {
        assert(words(entry.parameters@) =~= Seq::<Seq<char>>::empty());
        Vec::new()
    } else {
        split_words(entry.parameters.as_str())
    };
    let working_directory = if entry.working_directory.as_str().is_empty() {
        None
    } else {
        if !working_directory_exists {
            return Err(append_str("Working directory does not exist: ", entry.working_directory.as_str()));
        }
        Some(entry.working_directory.clone())
    };
    Ok(LaunchPlan { executable: entry.executable.clone(), args, working_directory })
}

/// Formats the message for a program the operating system refused to start.
pub fn spawn_failure(executable: &str, detail: &str) -> (r: String)
    ensures
        r@ == spawn_failure_message(executable@, detail@),
{
    let a = append_str("Failed to launch '", executable);
    let b = append_str(a.as_str(), "': ");
    let r = append_str(b.as_str(), detail);
    assert(r@ =~= spawn_failure_message(executable@, detail@));
    r
}

} // verus!
