use nvm_tasks::process_tree::{
    descendants, resume_order, suspend_order, termination_targets, ProcessEntry,
};
use nvm_tasks::supervisor::{control_event, install_args, package_spec, settle, started_event, InstallEnd};

fn row(pid: u32, parent_pid: u32) -> ProcessEntry {
    ProcessEntry { pid, parent_pid }
}

fn sample_table() -> Vec<ProcessEntry> {
    vec![
        row(4, 0),
        row(101, 100),
        row(300, 200),
        row(102, 100),
        row(201, 101),
        row(202, 102),
        row(203, 201),
        row(500, 4),
    ]
}

#[test]
fn descendants_breadth_first() {
    let d = descendants(100, &sample_table());
    assert_eq!(d, vec![101, 102, 201, 202, 203]);
    assert_eq!(descendants(999, &sample_table()), Vec::<u32>::new());
    assert_eq!(descendants(100, &Vec::new()), Vec::<u32>::new());
}

#[test]
fn descendants_listed_once() {
    let table = vec![row(2, 1), row(3, 2), row(2, 1), row(3, 1), row(1, 3)];
    assert_eq!(descendants(1, &table), vec![2, 3, 1]);
}

#[test]
fn suspend_and_resume_orders() {
    assert_eq!(suspend_order(100, &sample_table()), vec![100, 101, 102, 201, 202, 203]);
    assert_eq!(resume_order(100, &sample_table()), vec![101, 102, 201, 202, 203, 100]);
    assert_eq!(suspend_order(7, &Vec::new()), vec![7]);
    assert_eq!(resume_order(7, &Vec::new()), vec![7]);
}

#[test]
fn cancel_process_task_mid_run() {
    let id = package_spec("typescript", Some("5.4.0"));
    assert_eq!(id, "typescript@5.4.0");
    let start = started_event(&id);
    assert_eq!(start.progress, Some(10));
    assert_eq!(start.status, "Installing typescript@5.4.0...");
    let s = settle(&id, &InstallEnd::Cancelled);
    assert!(s.terminate_tree);
    assert_eq!(s.event.finished, Some(true));
    assert_eq!(s.event.status, "Cancelled");
    assert_eq!(s.event.id, "typescript@5.4.0");
    let targets = termination_targets(100, &sample_table());
    for pid in [100u32, 101, 102, 201, 202, 203] {
        assert!(targets.contains(&pid));
    }
    assert!(!targets.contains(&300));
    assert!(!targets.contains(&500));
    assert_eq!(targets.len(), 6);
}

#[test]
fn install_endings() {
    let id = "lodash".to_string();
    let ok = settle(&id, &InstallEnd::Exited { success: true });
    assert!(!ok.terminate_tree);
    assert_eq!(ok.event.progress, Some(100));
    assert_eq!(ok.event.finished, Some(true));
    let bad = settle(&id, &InstallEnd::Exited { success: false });
    assert_eq!(bad.event.error, Some("Install failed".to_string()));
    assert_eq!(bad.event.finished, None);
    let spawn = settle(&id, &InstallEnd::SpawnFailed);
    assert_eq!(spawn.event.error, Some("Could not start the installer".to_string()));
    let cfg = settle(&id, &InstallEnd::ConfigFailed("no settings".to_string()));
    assert_eq!(cfg.event.error, Some("no settings".to_string()));
    assert!(!cfg.terminate_tree);
}

#[test]
fn pause_and_resume_events_need_a_pid() {
    let id = "lodash".to_string();
    assert!(control_event(&id, None, true).is_none());
    let p = control_event(&id, Some(42), true).unwrap();
    assert_eq!(p.is_paused, Some(true));
    assert_eq!(p.status, "Paused");
    let r = control_event(&id, Some(42), false).unwrap();
    assert_eq!(r.is_paused, Some(false));
    assert_eq!(r.status, "Installing...");
}

#[test]
fn npm_install_arguments() {
    assert_eq!(install_args("lodash", None), vec!["install", "-g", "lodash"]);
    assert_eq!(
        install_args("lodash@4", Some("https://registry.npmmirror.com")),
        vec!["install", "-g", "lodash@4", "--registry", "https://registry.npmmirror.com"]
    );
    assert_eq!(package_spec("lodash", None), "lodash");
}
