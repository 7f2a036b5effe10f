use update_packages::project::{add_target_path, create_project, set_target_active,
    toggle_command_selection};
use update_packages::propagate::{
    active_targets, build_report, check_build_output, next_version, outcome_line,
    progress_target_message, propagation_report_lines, validate_project, BuildError,
    TargetOutcome,
};
use update_packages::script::{choose_runner, compose_script, compose_script_lines,
    npm_candidates, script_file_path};

fn strings(items: &[&str]) -> Vec<String> {
    items.iter().map(|s| s.to_string()).collect()
}

#[test]
fn script_preserves_command_order() {
    let lines = compose_script_lines(&strings(&["build", "test", "pack"]), "npm");
    assert_eq!(lines.len(), 5 + 2 * 3);
    assert_eq!(lines[5], "echo 'Running: npm run build'");
    assert_eq!(lines[6], "npm run build");
    assert_eq!(lines[7], "echo 'Running: npm run test'");
    assert_eq!(lines[8], "npm run test");
    assert_eq!(lines[9], "echo 'Running: npm run pack'");
    assert_eq!(lines[10], "npm run pack");
}

#[test]
fn script_text_is_exact() {
    let script = compose_script(&strings(&["build"]), "/usr/bin/npm");
    let expected = "#!/bin/bash\n\
        set -e\n\
        \n\
        export PATH=\"/usr/local/bin:/opt/homebrew/bin:/usr/bin:$PATH\"\n\
        \n\
        echo 'Running: /usr/bin/npm run build'\n\
        /usr/bin/npm run build\n";
    assert_eq!(script, expected);
}

#[test]
fn script_path_is_fixed_inside_working_dir() {
    assert_eq!(script_file_path("/src/mylib"), "/src/mylib/build_script.sh");
}

#[test]
fn runner_chosen_from_first_existing_probe() {
    let candidates = npm_candidates();
    assert_eq!(
        candidates,
        strings(&["/usr/local/bin/npm", "/opt/homebrew/bin/npm", "/usr/bin/npm"])
    );
    let r = choose_runner(&candidates, &vec![false, true, true], None);
    assert_eq!(r, Some("/opt/homebrew/bin/npm".to_string()));
}

#[test]
fn runner_falls_back_to_trimmed_search_path_answer() {
    let candidates = npm_candidates();
    let none = vec![false, false, false];
    assert_eq!(
        choose_runner(&candidates, &none, Some("  /home/u/.nvm/npm\n")),
        Some("/home/u/.nvm/npm".to_string())
    );
    assert_eq!(choose_runner(&candidates, &none, Some(" \n")), None);
    assert_eq!(choose_runner(&candidates, &none, None), None);
}

#[test]
fn preconditions_reported_in_order() {
    let mut p = create_project("Lib".to_string(), "/src".to_string(), strings(&["build"]));
    assert_eq!(
        validate_project(&p, true),
        Err(BuildError::NoCommandsSelected)
    );
    toggle_command_selection(&mut p, "build");
    assert_eq!(validate_project(&p, true), Err(BuildError::NoActiveTargets));
    add_target_path(&mut p, "/consumer/node_modules/lib");
    assert_eq!(validate_project(&p, false), Err(BuildError::ManifestMissing));
    assert_eq!(validate_project(&p, true), Ok(()));
    set_target_active(&mut p, 0, false);
    assert_eq!(validate_project(&p, true), Err(BuildError::NoActiveTargets));
}

#[test]
fn missing_build_output_aborts_whole_propagation() {
    assert_eq!(check_build_output(false), Err(BuildError::BuildOutputMissing));
    assert_eq!(check_build_output(true), Ok(()));
}

#[test]
fn only_active_targets_are_propagated() {
    let mut p = create_project("Lib".to_string(), "/src".to_string(), vec![]);
    add_target_path(&mut p, "/a");
    add_target_path(&mut p, "/b");
    add_target_path(&mut p, "/c");
    set_target_active(&mut p, 1, false);
    let active = active_targets(&p);
    assert_eq!(active.len(), 2);
    assert_eq!(active[0].path, "/a");
    assert_eq!(active[1].path, "/c");
}

#[test]
fn version_bump_defaults_to_zero() {
    assert_eq!(
        next_version(None),
        ("0.0.0".to_string(), "0.0.1".to_string())
    );
    assert_eq!(
        next_version(Some("2.4.9".to_string())),
        ("2.4.9".to_string(), "2.4.10".to_string())
    );
}

#[test]
fn one_failure_among_three_still_reports_three_lines() {
    let entries = vec![
        (
            "/a".to_string(),
            TargetOutcome::Updated {
                old_version: "1.0.0".to_string(),
                new_version: "1.0.1".to_string(),
            },
        ),
        (
            "/b".to_string(),
            TargetOutcome::DistCopyFailed { detail: "permission denied".to_string() },
        ),
        (
            "/c".to_string(),
            TargetOutcome::Updated {
                old_version: "0.0.0".to_string(),
                new_version: "0.0.1".to_string(),
            },
        ),
    ];
    let lines = propagation_report_lines(&entries);
    assert_eq!(lines.len(), 3);
    assert_eq!(lines[0], "Updated /a (v1.0.0 -> v1.0.1)");
    assert_eq!(lines[1], "Failed to copy dist to /b: permission denied");
    assert_eq!(lines[2], "Updated /c (v0.0.0 -> v0.0.1)");
}

#[test]
fn outcome_lines_per_failure_kind() {
    assert_eq!(
        outcome_line(
            "/t",
            &TargetOutcome::ManifestCopyFailed { detail: "no space".to_string() }
        ),
        "Failed to copy package.json to /t: no space"
    );
    assert_eq!(
        outcome_line(
            "/t",
            &TargetOutcome::VersionWriteFailed { detail: "read-only".to_string() }
        ),
        "Failed to update version in /t: read-only"
    );
}

#[test]
fn full_report_layout() {
    let entries = vec![(
        "/a".to_string(),
        TargetOutcome::Updated {
            old_version: "1.0.0".to_string(),
            new_version: "1.0.1".to_string(),
        },
    )];
    let report = build_report(2, "ok\n", &entries);
    let expected = "Executing 2 build commands in order...\n\
        All build commands completed successfully\nok\n\n\
        \nBuild commands completed successfully!\n\
        \nUpdating target paths...\n\
        Updated /a (v1.0.0 -> v1.0.1)";
    assert_eq!(report, expected);
}

#[test]
fn progress_names_the_target() {
    assert_eq!(
        progress_target_message(0, 3, "/x/proj/node_modules/@s/lib"),
        "Updating target 1 of 3: proj"
    );
}

#[test]
fn error_messages() {
    assert_eq!(BuildError::NoCommandsSelected.message(), "No build commands selected");
    assert_eq!(BuildError::NoActiveTargets.message(), "No active target paths");
    assert_eq!(
        BuildError::ManifestMissing.message(),
        "package.json not found in project directory"
    );
    assert_eq!(
        BuildError::BuildOutputMissing.message(),
        "dist directory not found after build. Build commands may have failed."
    );
    assert_eq!(
        BuildError::ScriptSetup { detail: "disk full".to_string() }.message(),
        "Failed to create build script: disk full"
    );
    assert_eq!(
        BuildError::SpawnFailed { detail: "not found".to_string() }.message(),
        "Failed to start build script: not found"
    );
    assert_eq!(
        BuildError::ScriptFailed { stderr: "boom".to_string() }.message(),
        "Build script failed: boom"
    );
    assert_eq!(BuildError::Cancelled.message(), "Build was cancelled");
    assert!(BuildError::Cancelled.is_cancelled());
    assert!(!BuildError::NoActiveTargets.is_cancelled());
}
