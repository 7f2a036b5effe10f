//! Artifact propagation: the preconditions a build run checks before any
//! target is touched, the per-target version bump, and the report that
//! records one outcome line per attempted target.  One target's failure
//! never prevents the remaining targets from being attempted; the caller
//! collects outcomes and the report lists them all.

use vstd::prelude::*;
use crate::numbers::{dec_digits, u64_to_string};
use crate::project::{Project, TargetPath, TargetPathView};
use crate::text::{joined_with_newlines, join_lines};
use crate::version::{increment_patch_spec, increment_patch_version};
use crate::names::{extract_name_spec, extract_project_name};

verus! {

/// Why a build run stopped before or during the build phase.  Per-target
/// propagation troubles are not here: they are recorded as data in the
/// report and never abort the batch.
#[derive(Debug, Clone, PartialEq)]
pub enum BuildError {
    /// No build command is selected for the project.
    NoCommandsSelected,
    /// No target path is marked active.
    NoActiveTargets,
    /// The project directory holds no manifest file.
    ManifestMissing,
    /// The build finished but produced no output directory.
    BuildOutputMissing,
    /// The script file could not be written or made executable.
    ScriptSetup { detail: String },
    /// The script process could not be started.
    SpawnFailed { detail: String },
    /// The script ran and exited non-zero; carries the captured stderr.
    ScriptFailed { stderr: String },
    /// The run was cancelled by the user: a distinguished outcome, so
    /// callers can report a cancellation rather than a failure.
    Cancelled,
}

pub open spec fn error_message_spec(e: BuildError) -> Seq<char> {
    match e {
        BuildError::NoCommandsSelected => "No build commands selected"@,
        BuildError::NoActiveTargets => "No active target paths"@,
        BuildError::ManifestMissing => "package.json not found in project directory"@,
        BuildError::BuildOutputMissing =>
            "dist directory not found after build. Build commands may have failed."@,
        BuildError::ScriptSetup { detail } => "Failed to create build script: "@ + detail@,
        BuildError::SpawnFailed { detail } => "Failed to start build script: "@ + detail@,
        BuildError::ScriptFailed { stderr } => "Build script failed: "@ + stderr@,
        BuildError::Cancelled => "Build was cancelled"@,
    }
}

impl BuildError {
    /// The human-readable account of this error.
    pub fn message(&self) -> (r: String)
        ensures
            r@ == error_message_spec(*self),
    {
        match self {
            BuildError::NoCommandsSelected => "No build commands selected".to_owned(),
            BuildError::NoActiveTargets => "No active target paths".to_owned(),
            BuildError::ManifestMissing => "package.json not found in project directory".to_owned(),
            BuildError::BuildOutputMissing =>
                "dist directory not found after build. Build commands may have failed.".to_owned(),
            BuildError::ScriptSetup { detail } => {
                let mut r: String = "Failed to create build script: ".to_owned();
                r.append(detail.as_str());
                r
            },
            BuildError::SpawnFailed { detail } => {
                let mut r: String = "Failed to start build script: ".to_owned();
                r.append(detail.as_str());
                r
            },
            BuildError::ScriptFailed { stderr } => {
                let mut r: String = "Build script failed: ".to_owned();
                r.append(stderr.as_str());
                r
            },
            BuildError::Cancelled => "Build was cancelled".to_owned(),
        }
    }

    /// Whether this outcome is the distinguished cancellation, which callers
    /// present as "cancelled" rather than "failed".
    pub fn is_cancelled(&self) -> (r: bool)
        ensures
            r == (*self is Cancelled),
    {
        match self {
            BuildError::Cancelled => true,
            _ => false,
        }
    }
}

// ---------------------------------------------------------------------------
// Preconditions
// ---------------------------------------------------------------------------

/// Some target participates in propagation.
pub open spec fn has_active_target(targets: Seq<TargetPathView>) -> bool {
    exists|i: int| 0 <= i < targets.len() && targets[i].is_active
}

fn any_active(targets: &Vec<TargetPath>) -> (r: bool)
    ensures
        r == has_active_target(targets.deep_view()),
{
    let mut i: usize = 0;
    while i < targets.len()
        invariant
            i <= targets@.len(),
            forall|j: int| 0 <= j < i ==> !targets.deep_view()[j].is_active,
        decreases targets@.len() - i,
    {
        if targets[i].is_active {
            assert(targets.deep_view()[i as int].is_active);
            return true;
        }
        i = i + 1;
    }
    false
}

/// Checks every precondition a build run demands before any work starts:
/// at least one selected command, at least one active target, and a manifest
/// in the project directory, reported in that order.
pub fn validate_project(project: &Project, manifest_exists: bool) -> (r: Result<(), BuildError>)
    ensures
        r is Ok <==> (project@.selected_build_commands.len() > 0 && has_active_target(
            project@.target_paths,
        ) && manifest_exists),
        project@.selected_build_commands.len() == 0 ==> r == Err::<(), BuildError>(
            BuildError::NoCommandsSelected,
        ),
        project@.selected_build_commands.len() > 0 && !has_active_target(project@.target_paths)
            ==> r == Err::<(), BuildError>(BuildError::NoActiveTargets),
        project@.selected_build_commands.len() > 0 && has_active_target(project@.target_paths)
            && !manifest_exists ==> r == Err::<(), BuildError>(BuildError::ManifestMissing),
{
    if project.selected_build_commands.len() == 0 {
        return Err(BuildError::NoCommandsSelected);
    }
    if !any_active(&project.target_paths) {
        return Err(BuildError::NoActiveTargets);
    }
    if !manifest_exists {
        return Err(BuildError::ManifestMissing);
    }
    Ok(())
}

/// After the build phase, propagation proceeds only if the build-output
/// directory exists; otherwise the whole batch is abandoned before any
/// target is attempted.
pub fn check_build_output(dist_exists: bool) -> (r: Result<(), BuildError>)
    ensures
        r is Ok <==> dist_exists,
        !dist_exists ==> r == Err::<(), BuildError>(BuildError::BuildOutputMissing),
{
    if dist_exists {
        Ok(())
    } else {
        Err(BuildError::BuildOutputMissing)
    }
}

/// The active targets, in their stored order.
pub open spec fn active_filter(targets: Seq<TargetPathView>) -> Seq<TargetPathView>
    decreases targets.len(),
{
    if targets.len() == 0 {
        Seq::empty()
    } else {
        let rest = active_filter(targets.drop_last());
        if targets.last().is_active {
            rest.push(targets.last())
        } else {
            rest
        }
    }
}

fn duplicate_target(t: &TargetPath) -> (r: TargetPath)
    ensures
        r@ == t@,
{
    TargetPath { id: t.id.clone(), path: t.path.clone(), is_active: t.is_active }
}

/// The targets that participate in this propagation, in their stored order.
pub fn active_targets(project: &Project) -> (v: Vec<TargetPath>)
    ensures
        v.deep_view() == active_filter(project@.target_paths),
{
    let ghost all = project.target_paths.deep_view();
    let mut v: Vec<TargetPath> = Vec::new();
    let mut i: usize = 0;
    proof {
        assert(all.take(0) =~= Seq::<TargetPathView>::empty());
        assert(v.deep_view() =~= active_filter(all.take(0)));
    }
    while i < project.target_paths.len()
        invariant
            all == project.target_paths.deep_view(),
            i <= all.len(),
            all.len() == project.target_paths@.len(),
            v.deep_view() == active_filter(all.take(i as int)),
        decreases all.len() - i,
    {
        let ghost prefix = all.take(i as int);
        let ghost prefix1 = all.take(i + 1);
        proof {
            assert(prefix1.drop_last() =~= prefix);
            assert(prefix1.last() == all[i as int]);
        }
        if project.target_paths[i].is_active {
            let ghost v0 = v.deep_view();
            let entry = duplicate_target(&project.target_paths[i]);
            v.push(entry);
            proof {
                assert(v.deep_view() =~= v0.push(all[i as int]));
            }
        }
        i = i + 1;
    }
    proof {
        assert(all.take(all.len() as int) =~= all);
    }
    v
}

// ---------------------------------------------------------------------------
// The per-target version bump
// ---------------------------------------------------------------------------

/// The version assumed for a target whose manifest offers none.
pub open spec fn default_version() -> Seq<char> {
    seq!['0', '.', '0', '.', '0']
}

/// From a target's current manifest version (absent when unreadable), the
/// version it has now and the version this propagation writes: the patch
/// component incremented.
pub fn next_version(current: Option<String>) -> (r: (String, String))
    ensures
        r.0@ == match current {
            Some(s) => s@,
            None => default_version(),
        },
        r.1@ == increment_patch_spec(r.0@),
{
    let old_version: String = match current {
        Some(s) => s,
        None => {
            let d: String = "0.0.0".to_owned();
            proof {
                reveal_strlit("0.0.0");
                assert(d@ =~= default_version());
            }
            d
        },
    };
    let new_version = increment_patch_version(old_version.as_str());
    (old_version, new_version)
}

// ---------------------------------------------------------------------------
// Per-target outcomes and the report
// ---------------------------------------------------------------------------

/// What happened to one target: either it was updated (with the versions
/// involved), or the step that failed, with its account.  Later steps are
/// not attempted for a target once one fails, and the next target is
/// attempted regardless.
#[derive(Debug, Clone, PartialEq)]
pub enum TargetOutcome {
    Updated { old_version: String, new_version: String },
    DistCopyFailed { detail: String },
    ManifestCopyFailed { detail: String },
    VersionWriteFailed { detail: String },
}

pub open spec fn outcome_line_spec(path: Seq<char>, o: TargetOutcome) -> Seq<char> {
    match o {
        TargetOutcome::Updated { old_version, new_version } => "Updated "@ + path + " (v"@
            + old_version@ + " -> v"@ + new_version@ + ")"@,
        TargetOutcome::DistCopyFailed { detail } => "Failed to copy dist to "@ + path + ": "@
            + detail@,
        TargetOutcome::ManifestCopyFailed { detail } => "Failed to copy package.json to "@ + path
            + ": "@ + detail@,
        TargetOutcome::VersionWriteFailed { detail } => "Failed to update version in "@ + path
            + ": "@ + detail@,
    }
}

/// The report line for one target.
pub fn outcome_line(path: &str, outcome: &TargetOutcome) -> (r: String)
    ensures
        r@ == outcome_line_spec(path@, *outcome),
{
    match outcome {
        TargetOutcome::Updated { old_version, new_version } => {
            let mut r: String = "Updated ".to_owned();
            r.append(path);
            r.append(" (v");
            r.append(old_version.as_str());
            r.append(" -> v");
            r.append(new_version.as_str());
            r.append(")");
            proof {
                assert(r@ =~= outcome_line_spec(path@, *outcome));
            }
            r
        },
        TargetOutcome::DistCopyFailed { detail } => {
            let mut r: String = "Failed to copy dist to ".to_owned();
            r.append(path);
            r.append(": ");
            r.append(detail.as_str());
            proof {
                assert(r@ =~= outcome_line_spec(path@, *outcome));
            }
            r
        },
        TargetOutcome::ManifestCopyFailed { detail } => {
            let mut r: String = "Failed to copy package.json to ".to_owned();
            r.append(path);
            r.append(": ");
            r.append(detail.as_str());
            proof {
                assert(r@ =~= outcome_line_spec(path@, *outcome));
            }
            r
        },
        TargetOutcome::VersionWriteFailed { detail } => {
            let mut r: String = "Failed to update version in ".to_owned();
            r.append(path);
            r.append(": ");
            r.append(detail.as_str());
            proof {
                assert(r@ =~= outcome_line_spec(path@, *outcome));
            }
            r
        },
    }
}

/// The report lines for a batch: one line per attempted target, in order.
pub open spec fn outcome_lines_of(entries: Seq<(String, TargetOutcome)>) -> Seq<Seq<char>> {
    Seq::new(entries.len(), |i: int| outcome_line_spec(entries[i].0@, entries[i].1))
}

/// Renders one report line per target outcome, in the order attempted: a
/// failing target contributes its line and never suppresses the others'.
pub fn propagation_report_lines(entries: &Vec<(String, TargetOutcome)>) -> (lines: Vec<String>)
    ensures
        lines.deep_view() == outcome_lines_of(entries@),
        lines@.len() == entries@.len(),
{
    let mut lines: Vec<String> = Vec::new();
    let mut i: usize = 0;
    while i < entries.len()
        invariant
            i <= entries@.len(),
            lines.deep_view() == outcome_lines_of(entries@).take(i as int),
        decreases entries@.len() - i,
    {
        let ghost before = lines.deep_view();
        let entry = &entries[i];
        let line = outcome_line(entry.0.as_str(), &entry.1);
        lines.push(line);
        proof {
            assert(lines.deep_view() =~= before.push(outcome_line_spec(
                entries@[i as int].0@,
                entries@[i as int].1,
            )));
            assert(lines.deep_view() =~= outcome_lines_of(entries@).take(i + 1));
        }
        i = i + 1;
    }
    proof {
        assert(outcome_lines_of(entries@).take(entries@.len() as int) =~= outcome_lines_of(
            entries@,
        ));
    }
    lines
}

/// The fixed lines that precede the per-target lines in a successful run's
/// report.
pub open spec fn report_header_lines(command_count: nat, stdout: Seq<char>) -> Seq<Seq<char>> {
    seq![
        "Executing "@ + dec_digits(command_count) + " build commands in order..."@,
        "All build commands completed successfully\n"@ + stdout,
        "\nBuild commands completed successfully!"@,
        "\nUpdating target paths..."@,
    ]
}

/// The whole report of a successful build: the fixed progress lines, then
/// one line per attempted target, joined by newlines.
pub fn build_report(
    command_count: usize,
    stdout: &str,
    entries: &Vec<(String, TargetOutcome)>,
) -> (r: String)
    ensures
        r@ == joined_with_newlines(
            report_header_lines(command_count as nat, stdout@) + outcome_lines_of(entries@),
        ),
{
    let mut lines: Vec<String> = Vec::new();
    let mut first: String = "Executing ".to_owned();
    let count = u64_to_string(command_count as u64);
    first.append(count.as_str());
    first.append(" build commands in order...");
    lines.push(first);
    let mut second: String = "All build commands completed successfully\n".to_owned();
    second.append(stdout);
    lines.push(second);
    lines.push("\nBuild commands completed successfully!".to_owned());
    lines.push("\nUpdating target paths...".to_owned());
    proof {
        assert(lines.deep_view() =~= report_header_lines(command_count as nat, stdout@));
    }
    let mut target_lines = propagation_report_lines(entries);
    let ghost header = lines.deep_view();
    let ghost targets = target_lines.deep_view();
    lines.append(&mut target_lines);
    proof {
        assert(lines.deep_view() =~= header + targets);
    }
    join_lines(&lines)
}

/// The milestone string pushed while target `index` (zero-based) of `total`
/// is updated, naming the target by its extracted project name.
pub fn progress_target_message(index: usize, total: usize, path: &str) -> (r: String)
    requires
        index < total,
    ensures
        r@ == "Updating target "@ + dec_digits(index as nat + 1) + " of "@ + dec_digits(
            total as nat,
        ) + ": "@ + extract_name_spec(path@),
{
    let mut r: String = "Updating target ".to_owned();
    let pos = u64_to_string(index as u64 + 1);
    r.append(pos.as_str());
    r.append(" of ");
    let tot = u64_to_string(total as u64);
    r.append(tot.as_str());
    r.append(": ");
    let name = extract_project_name(path);
    r.append(name.as_str());
    proof {
        assert(r@ =~= "Updating target "@ + dec_digits(index as nat + 1) + " of "@ + dec_digits(
            total as nat,
        ) + ": "@ + extract_name_spec(path@));
    }
    r
}

} // verus!
