use update_packages::project::{
    add_target_path, create_project, find_project, move_command_down, move_command_up,
    refresh_build_commands, remove_target_path, replace_project, set_target_active,
    toggle_command_selection, Project,
};

fn strings(items: &[&str]) -> Vec<String> {
    items.iter().map(|s| s.to_string()).collect()
}

fn sample_project() -> Project {
    create_project(
        "My Lib".to_string(),
        "/src/mylib".to_string(),
        strings(&["build", "test", "pack"]),
    )
}

#[test]
fn created_project_has_fresh_id_and_empty_selection() {
    let p = sample_project();
    assert_eq!(p.id.len(), 36);
    assert_eq!(p.name, "My Lib");
    assert_eq!(p.path, "/src/mylib");
    assert_eq!(p.build_commands, strings(&["build", "test", "pack"]));
    assert!(p.selected_build_commands.is_empty());
    assert!(p.target_paths.is_empty());
    let q = sample_project();
    assert_ne!(p.id, q.id, "identifiers are freshly generated");
}

#[test]
fn refresh_prunes_exactly_the_missing_commands() {
    let mut p = sample_project();
    toggle_command_selection(&mut p, "pack");
    toggle_command_selection(&mut p, "build");
    toggle_command_selection(&mut p, "test");
    assert_eq!(p.selected_build_commands, strings(&["pack", "build", "test"]));

    refresh_build_commands(&mut p, strings(&["build", "pack", "lint"]));
    assert_eq!(p.build_commands, strings(&["build", "pack", "lint"]));
    assert_eq!(
        p.selected_build_commands,
        strings(&["pack", "build"]),
        "removed commands are pruned, relative order kept"
    );
}

#[test]
fn refresh_twice_is_idempotent() {
    let mut p = sample_project();
    toggle_command_selection(&mut p, "pack");
    toggle_command_selection(&mut p, "build");
    refresh_build_commands(&mut p, strings(&["build", "pack", "lint"]));
    let once = p.selected_build_commands.clone();
    refresh_build_commands(&mut p, strings(&["build", "pack", "lint"]));
    assert_eq!(p.selected_build_commands, once);
}

#[test]
fn toggle_adds_then_removes() {
    let mut p = sample_project();
    toggle_command_selection(&mut p, "build");
    assert_eq!(p.selected_build_commands, strings(&["build"]));
    toggle_command_selection(&mut p, "build");
    assert!(p.selected_build_commands.is_empty());
}

#[test]
fn reordering_swaps_neighbours() {
    let mut p = sample_project();
    toggle_command_selection(&mut p, "build");
    toggle_command_selection(&mut p, "test");
    toggle_command_selection(&mut p, "pack");
    move_command_up(&mut p, 2);
    assert_eq!(p.selected_build_commands, strings(&["build", "pack", "test"]));
    move_command_down(&mut p, 0);
    assert_eq!(p.selected_build_commands, strings(&["pack", "build", "test"]));
}

#[test]
fn target_paths_lifecycle() {
    let mut p = sample_project();
    add_target_path(&mut p, "  /consumer/node_modules/mylib \n");
    assert_eq!(p.target_paths.len(), 1);
    assert_eq!(p.target_paths[0].path, "/consumer/node_modules/mylib");
    assert!(p.target_paths[0].is_active);
    assert_eq!(p.target_paths[0].id.len(), 36);

    add_target_path(&mut p, "/other/node_modules/mylib");
    set_target_active(&mut p, 0, false);
    assert!(!p.target_paths[0].is_active);
    assert!(p.target_paths[1].is_active);

    remove_target_path(&mut p, 0);
    assert_eq!(p.target_paths.len(), 1);
    assert_eq!(p.target_paths[0].path, "/other/node_modules/mylib");
}

#[test]
fn lookup_by_name_is_case_insensitive() {
    let a = create_project("Alpha".to_string(), "/a".to_string(), vec![]);
    let b = create_project("Beta".to_string(), "/b".to_string(), vec![]);
    let b_id = b.id.clone();
    let projects = vec![a, b];
    assert_eq!(find_project(&projects, "ALPHA"), Some(0));
    assert_eq!(find_project(&projects, "beta"), Some(1));
    assert_eq!(find_project(&projects, &b_id), Some(1));
    assert_eq!(find_project(&projects, "gamma"), None);
}

#[test]
fn replace_updates_the_matching_entry_only() {
    let a = create_project("Alpha".to_string(), "/a".to_string(), vec![]);
    let b = create_project("Beta".to_string(), "/b".to_string(), vec![]);
    let mut edited = b.clone();
    edited.name = "Beta 2".to_string();
    let mut projects = vec![a, b];
    replace_project(&mut projects, edited);
    assert_eq!(projects[0].name, "Alpha");
    assert_eq!(projects[1].name, "Beta 2");

    let mut stranger = create_project("Gamma".to_string(), "/c".to_string(), vec![]);
    stranger.name = "Gamma".to_string();
    let before = projects.clone();
    replace_project(&mut projects, stranger);
    assert_eq!(projects, before, "an unknown identifier changes nothing");
}
