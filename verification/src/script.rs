//! The script composer and the runner locator.  A build run turns the
//! ordered command selection into one shell script — shebang, strict-failure
//! mode, a search-path export, then an echo and an invocation per command —
//! so a single process group carries every step and one signal stops them
//! all.  The locator picks the runner binary from well-known install
//! locations, falling back to the search path's answer.

use vstd::prelude::*;
use crate::text::{lines_with_newlines, terminate_lines, trim_seq, trim_str};

verus! {

// ---------------------------------------------------------------------------
// Locating the runner binary
// ---------------------------------------------------------------------------

/// The well-known install locations probed for the runner, in priority order.
pub open spec fn npm_candidate_paths() -> Seq<Seq<char>> {
    seq!["/usr/local/bin/npm"@, "/opt/homebrew/bin/npm"@, "/usr/bin/npm"@]
}

/// The well-known install locations probed for the runner, in priority order.
pub fn npm_candidates() -> (v: Vec<String>)
    ensures
        v.deep_view() == npm_candidate_paths(),
{
    let mut v: Vec<String> = Vec::new();
    v.push("/usr/local/bin/npm".to_owned());
    v.push("/opt/homebrew/bin/npm".to_owned());
    v.push("/usr/bin/npm".to_owned());
    proof {
        assert(v.deep_view() =~= npm_candidate_paths());
    }
    v
}

/// Index of the first set flag, or `flags.len()` if none is set.
pub open spec fn first_true(flags: Seq<bool>) -> nat
    decreases flags.len(),
{
    if flags.len() == 0 {
        0
    } else if flags[0] {
        0
    } else {
        (1 + first_true(flags.drop_first())) as nat
    }
}

pub proof fn lemma_first_true(flags: Seq<bool>)
    ensures
        first_true(flags) <= flags.len(),
        first_true(flags) < flags.len() ==> flags[first_true(flags) as int],
        forall|j: int| 0 <= j < first_true(flags) ==> !flags[j],
    decreases flags.len(),
{
    if flags.len() > 0 && !flags[0] {
        lemma_first_true(flags.drop_first());
        assert forall|j: int| 0 <= j < first_true(flags) implies !flags[j] by {
            if j > 0 {
                assert(flags.drop_first()[j - 1] == flags[j]);
            }
        }
    }
}

/// The runner the locator settles on: the first probed location that exists,
/// else the trimmed search-path answer when it is non-empty, else nothing —
/// the caller then falls back to the bare command name.
pub open spec fn chosen_runner(
    cands: Seq<Seq<char>>,
    flags: Seq<bool>,
    which: Option<Seq<char>>,
) -> Option<Seq<char>> {
    if first_true(flags) < cands.len() {
        Some(cands[first_true(flags) as int])
    } else {
        match which {
            Some(w) => if trim_seq(w).len() > 0 {
                Some(trim_seq(w))
            } else {
                None
            },
            None => None,
        }
    }
}

/// Picks the runner from probe results: `exists_flags[i]` says whether
/// `candidates[i]` exists on disk, and `which_output` is what the
/// search-path resolver printed, if it succeeded.
pub fn choose_runner(
    candidates: &Vec<String>,
    exists_flags: &Vec<bool>,
    which_output: Option<&str>,
) -> (r: Option<String>)
    requires
        exists_flags@.len() == candidates@.len(),
    ensures
        match r {
            Some(s) => Some(s@) == chosen_runner(
                candidates.deep_view(),
                exists_flags@,
                match which_output {
                    Some(w) => Some(w@),
                    None => None,
                },
            ),
            None => chosen_runner(
                candidates.deep_view(),
                exists_flags@,
                match which_output {
                    Some(w) => Some(w@),
                    None => None,
                },
            ) is None,
        },
{
    let ghost flags = exists_flags@;
    let mut i: usize = 0;
    while i < exists_flags.len()
        invariant
            flags == exists_flags@,
            i <= flags.len(),
            flags.len() == candidates@.len(),
            forall|j: int| 0 <= j < i ==> !flags[j],
        decreases flags.len() - i,
    {
        if exists_flags[i] {
            proof {
                lemma_first_true(flags);
                if first_true(flags) > i {
                    assert(!flags[i as int]);
                    assert(false);
                }
                if first_true(flags) < i {
                    assert(!flags[first_true(flags) as int]);
                    assert(false);
                }
            }
            return Some(candidates[i].clone());
        }
        i = i + 1;
    }
    proof {
        lemma_first_true(flags);
        if first_true(flags) < flags.len() {
            assert(!flags[first_true(flags) as int]);
            assert(false);
        }
    }
    match which_output {
        Some(w) => {
            let t = trim_str(w);
            if t.as_str().unicode_len() > 0 {
                Some(t)
            } else {
                None
            }
        },
        None => None,
    }
}

// ---------------------------------------------------------------------------
// Composing the script
// ---------------------------------------------------------------------------

/// The fixed opening of every build script: shebang, abort on the first
/// failing step, and a search-path augmentation covering the runner's
/// common install locations.
pub open spec fn script_header() -> Seq<Seq<char>> {
    seq![
        "#!/bin/bash"@,
        "set -e"@,
        ""@,
        "export PATH=\"/usr/local/bin:/opt/homebrew/bin:/usr/bin:$PATH\""@,
        ""@,
    ]
}

/// The line announcing one command before it runs.
pub open spec fn echo_line(runner: Seq<char>, cmd: Seq<char>) -> Seq<char> {
    "echo 'Running: "@ + runner + " run "@ + cmd + "'"@
}

/// The line invoking one command through the runner.
pub open spec fn run_line(runner: Seq<char>, cmd: Seq<char>) -> Seq<char> {
    runner + " run "@ + cmd
}

/// The whole script, line by line: the header, then an echo and an
/// invocation for each command, in exactly the input order.
pub open spec fn script_lines(runner: Seq<char>, cmds: Seq<Seq<char>>) -> Seq<Seq<char>> {
    script_header() + Seq::new(
        2 * cmds.len(),
        |i: int|
            if i % 2 == 0 {
                echo_line(runner, cmds[i / 2])
            } else {
                run_line(runner, cmds[i / 2])
            },
    )
}

/// Commands appear in the script in exactly the input order: the two lines
/// for the `k`-th command stand at the `k`-th position after the header.
pub proof fn lemma_script_preserves_order(runner: Seq<char>, cmds: Seq<Seq<char>>)
    ensures
        script_lines(runner, cmds).len() == 5 + 2 * cmds.len(),
        forall|k: int|
            0 <= k < cmds.len() ==> script_lines(runner, cmds)[5 + 2 * k] == echo_line(
                runner,
                cmds[k],
            ),
        forall|k: int|
            0 <= k < cmds.len() ==> script_lines(runner, cmds)[5 + 2 * k + 1] == run_line(
                runner,
                cmds[k],
            ),
{
    assert forall|k: int| 0 <= k < cmds.len() implies script_lines(runner, cmds)[5 + 2 * k]
        == echo_line(runner, cmds[k]) && script_lines(runner, cmds)[5 + 2 * k + 1] == run_line(
        runner,
        cmds[k],
    ) by {
        assert((2 * k) % 2 == 0);
        assert((2 * k) / 2 == k);
        assert((2 * k + 1) % 2 == 1);
        assert((2 * k + 1) / 2 == k);
    }
}

fn echo_line_exec(runner: &str, cmd: &str) -> (r: String)
    ensures
        r@ == echo_line(runner@, cmd@),
{
    let mut r: String = "echo 'Running: ".to_owned();
    r.append(runner);
    r.append(" run ");
    r.append(cmd);
    r.append("'");
    proof {
        assert(r@ =~= echo_line(runner@, cmd@));
    }
    r
}

fn run_line_exec(runner: &str, cmd: &str) -> (r: String)
    ensures
        r@ == run_line(runner@, cmd@),
{
    let mut r: String = runner.to_owned();
    r.append(" run ");
    r.append(cmd);
    proof {
        assert(r@ =~= run_line(runner@, cmd@));
    }
    r
}

/// Builds the script's lines for the given commands, in their given order.
pub fn compose_script_lines(commands: &Vec<String>, runner: &str) -> (lines: Vec<String>)
    ensures
        lines.deep_view() == script_lines(runner@, commands.deep_view()),
{
    let ghost cmds = commands.deep_view();
    let mut lines: Vec<String> = Vec::new();
    lines.push("#!/bin/bash".to_owned());
    lines.push("set -e".to_owned());
    lines.push("".to_owned());
    lines.push("export PATH=\"/usr/local/bin:/opt/homebrew/bin:/usr/bin:$PATH\"".to_owned());
    lines.push("".to_owned());
    proof {
        assert(lines.deep_view() =~= script_header());
        assert(lines.deep_view() =~= script_lines(runner@, cmds.take(0)));
    }
    let mut i: usize = 0;
    while i < commands.len()
        invariant
            cmds == commands.deep_view(),
            i <= cmds.len(),
            cmds.len() == commands@.len(),
            lines.deep_view() == script_lines(runner@, cmds.take(i as int)),
        decreases cmds.len() - i,
    {
        let echo = echo_line_exec(runner, commands[i].as_str());
        let run = run_line_exec(runner, commands[i].as_str());
        let ghost before = lines.deep_view();
        lines.push(echo);
        lines.push(run);
        proof {
            let prefix = cmds.take(i as int);
            let prefix1 = cmds.take(i + 1);
            assert forall|t: int| 0 <= t < prefix1.len() implies prefix1[t] == cmds[t] by {}
            assert(lines.deep_view() =~= before.push(echo_line(runner@, cmds[i as int])).push(
                run_line(runner@, cmds[i as int]),
            ));
            assert forall|t: int|
                0 <= t < script_lines(runner@, prefix1).len() implies script_lines(
                runner@,
                prefix1,
            )[t] == lines.deep_view()[t] by {
                if t >= 5 {
                    let u = t - 5;
                    assert(u / 2 <= i);
                    if u < 2 * i {
                        assert(script_lines(runner@, prefix)[t] == before[t]);
                    } else if u == 2 * i {
                        assert(u % 2 == 0);
                        assert(u / 2 == i);
                    } else {
                        assert(u == 2 * i + 1);
                        assert(u % 2 == 1);
                        assert(u / 2 == i);
                    }
                }
            }
            assert(lines.deep_view() =~= script_lines(runner@, prefix1));
        }
        i = i + 1;
    }
    proof {
        assert(cmds.take(cmds.len() as int) =~= cmds);
    }
    lines
}

/// The whole script as one text: every line with a trailing newline.
pub fn compose_script(commands: &Vec<String>, runner: &str) -> (script: String)
    ensures
        script@ == lines_with_newlines(script_lines(runner@, commands.deep_view())),
{
    let lines = compose_script_lines(commands, runner);
    terminate_lines(&lines)
}

/// The disposable script's fixed file name inside the working directory.
pub open spec fn script_file_suffix() -> Seq<char> {
    seq!['/', 'b', 'u', 'i', 'l', 'd', '_', 's', 'c', 'r', 'i', 'p', 't', '.', 's', 'h']
}

/// Where the composed script is written inside the working directory.
pub fn script_file_path(working_dir: &str) -> (r: String)
    ensures
        r@ == working_dir@ + script_file_suffix(),
{
    let mut r: String = working_dir.to_owned();
    r.append("/build_script.sh");
    proof {
        reveal_strlit("/build_script.sh");
        assert(r@ =~= working_dir@ + script_file_suffix());
    }
    r
}

} // verus!
