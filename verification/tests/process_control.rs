use update_packages::reaper::{find_orphans, plan_kill_order, wants_group_kill, ProcessRecord};
use update_packages::registry::ProcessRegistry;
use update_packages::supervisor::{cancel_build, classify_exit, kill_route, poll_step,
    HandleSlot, KillRoute, PollStep};
use update_packages::propagate::BuildError;

fn record(pid: u32, parent: Option<u32>, name: &str) -> ProcessRecord {
    ProcessRecord { pid, parent_pid: parent, name: name.to_string() }
}

#[test]
fn kill_plan_includes_root_even_without_children() {
    let order = plan_kill_order(&vec![], 42);
    assert_eq!(order, vec![42]);
    let unrelated = vec![record(1, None, "init"), record(7, Some(1), "sshd")];
    let order = plan_kill_order(&unrelated, 42);
    assert_eq!(order, vec![42]);
}

#[test]
fn kill_plan_lists_children_before_parents() {
    let snapshot = vec![
        record(1, None, "init"),
        record(10, Some(42), "npm"),
        record(11, Some(10), "node"),
        record(99, Some(1), "bystander"),
    ];
    let order = plan_kill_order(&snapshot, 42);
    assert_eq!(*order.last().unwrap(), 42);
    assert!(order.contains(&10));
    assert!(order.contains(&11));
    assert!(!order.contains(&99));
    let pos = |p: u32| order.iter().position(|&x| x == p).unwrap();
    assert!(pos(11) < pos(10), "grandchild dies before child");
    assert!(pos(10) < pos(42), "child dies before root");
}

#[test]
fn kill_plan_handles_parent_cycles() {
    let snapshot = vec![record(5, Some(6), "a"), record(6, Some(5), "b")];
    let order = plan_kill_order(&snapshot, 5);
    assert_eq!(*order.last().unwrap(), 5);
    assert!(order.contains(&6));
    assert_eq!(order.len(), 2);
}

#[test]
fn shell_roots_get_a_group_kill() {
    let snapshot = vec![record(42, Some(1), "bash"), record(43, Some(1), "python")];
    assert!(wants_group_kill(&snapshot, 42));
    assert!(!wants_group_kill(&snapshot, 43));
    assert!(!wants_group_kill(&snapshot, 7), "an absent root is no shell");
}

#[test]
fn orphan_sweep_matches_runtime_names_under_killed_parents() {
    let killed = vec![42, 10];
    let snapshot = vec![
        record(20, Some(10), "NPM"),
        record(21, Some(42), "node"),
        record(22, Some(1), "node"),
        record(23, Some(10), "vim"),
    ];
    let orphans = find_orphans(&snapshot, 42, &killed);
    assert_eq!(orphans, vec![20, 21]);
}

#[test]
fn poll_policy() {
    assert_eq!(poll_step(false, false), PollStep::ReportCancelled);
    assert_eq!(poll_step(false, true), PollStep::ReportCancelled);
    assert_eq!(poll_step(true, true), PollStep::CollectOutput);
    assert_eq!(poll_step(true, false), PollStep::SleepAndRetry);
}

#[test]
fn exit_classification() {
    assert_eq!(
        classify_exit(true, "out".to_string(), "err".to_string()),
        Ok("out".to_string())
    );
    assert_eq!(
        classify_exit(false, "out".to_string(), "err".to_string()),
        Err(BuildError::ScriptFailed { stderr: "err".to_string() })
    );
}

#[test]
fn kill_route_prefers_the_tree() {
    assert_eq!(kill_route(Some(7)), KillRoute::Tree(7));
    assert_eq!(kill_route(None), KillRoute::Direct);
}

#[test]
fn cancelled_job_leaves_no_registry_entry() {
    let rt = tokio::runtime::Builder::new_multi_thread()
        .enable_all()
        .build()
        .unwrap();
    rt.block_on(async {
        let child = tokio::process::Command::new("sleep")
            .arg("30")
            .spawn()
            .expect("spawn sleep");
        let mut registry = ProcessRegistry::new();
        let mut slot = HandleSlot::new();
        let pid = child.id();
        registry.register_process("job-1".to_string(), child);
        assert!(registry.contains_job("job-1"));

        // A second handle in the slot stands for the same run's process.
        let child2 = tokio::process::Command::new("sleep")
            .arg("30")
            .spawn()
            .expect("spawn sleep");
        slot.put(child2);
        assert!(slot.occupied());

        let taken = cancel_build(&mut slot, &mut registry, "job-1");
        assert!(!registry.contains_job("job-1"), "no entry survives a cancel");
        assert!(!slot.occupied(), "the slot is left empty for the next run");
        let mut taken = taken.expect("the canceller claims the handle");
        assert_eq!(kill_route(pid), KillRoute::Tree(pid.unwrap()));
        taken.kill().await.unwrap();
    });
}

#[test]
fn registry_register_unregister_drain() {
    let rt = tokio::runtime::Builder::new_multi_thread()
        .enable_all()
        .build()
        .unwrap();
    rt.block_on(async {
        let mut registry = ProcessRegistry::new();
        assert_eq!(registry.job_count(), 0);
        assert!(!registry.contains_job("a"));
        registry.unregister_process("a");

        let c1 = tokio::process::Command::new("sleep").arg("30").spawn().unwrap();
        let c2 = tokio::process::Command::new("sleep").arg("30").spawn().unwrap();
        let c3 = tokio::process::Command::new("sleep").arg("30").spawn().unwrap();
        registry.register_process("a".to_string(), c1);
        registry.register_process("b".to_string(), c2);
        assert_eq!(registry.job_count(), 2);
        registry.register_process("a".to_string(), c3);
        assert_eq!(registry.job_count(), 2, "re-registering replaces the entry");

        registry.unregister_process("b");
        assert!(!registry.contains_job("b"));
        assert!(registry.contains_job("a"));

        let drained = registry.drain_jobs();
        assert_eq!(registry.job_count(), 0);
        assert_eq!(drained.len(), 1);
        assert_eq!(drained[0].id, "a");
        for mut entry in drained {
            entry.handle.kill().await.unwrap();
        }
    });
}
