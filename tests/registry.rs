use nvm_tasks::commands::{start_download, start_install};
use nvm_tasks::registry::{normalize_version, TaskError, TaskRegistry};

fn already_running(r: &Result<String, TaskError>) -> Option<String> {
    match r {
        Err(TaskError::AlreadyRunning(id)) => Some(id.clone()),
        _ => None,
    }
}

#[test]
fn second_start_of_same_version_is_refused() {
    let mut reg: TaskRegistry<u32> = TaskRegistry::new();
    let first = start_download(&mut reg, "20.0.0", 1);
    assert_eq!(first.ok(), Some("v20.0.0".to_string()));
    let second = start_download(&mut reg, "v20.0.0", 2);
    assert_eq!(already_running(&second), Some("v20.0.0".to_string()));
    assert_eq!(reg.len(), 1);
    assert_eq!(reg.lookup("v20.0.0").ok().map(|e| e.handles), Some(1));
}

#[test]
fn second_start_of_same_package_is_refused() {
    let mut reg: TaskRegistry<u32> = TaskRegistry::new();
    assert_eq!(start_install(&mut reg, "pnpm", Some("8.0.0"), 1).ok(), Some("pnpm@8.0.0".to_string()));
    let again = start_install(&mut reg, "pnpm", Some("8.0.0"), 2);
    assert_eq!(already_running(&again), Some("pnpm@8.0.0".to_string()));
    // another spec of the same package is another task
    assert_eq!(start_install(&mut reg, "pnpm", None, 3).ok(), Some("pnpm".to_string()));
    assert_eq!(reg.len(), 2);
}

#[test]
fn start_is_accepted_again_after_unregister() {
    let mut reg: TaskRegistry<u32> = TaskRegistry::new();
    assert!(start_download(&mut reg, "18.1.0", 1).is_ok());
    assert_eq!(reg.unregister("v18.1.0"), Some(1));
    assert_eq!(reg.unregister("v18.1.0"), None);
    assert!(start_download(&mut reg, "18.1.0", 2).is_ok());
}

#[test]
fn lookup_of_unknown_id_is_not_found() {
    let mut reg: TaskRegistry<u32> = TaskRegistry::new();
    match reg.lookup("20.0.0") {
        Err(TaskError::NotFound(id)) => assert_eq!(id, "20.0.0"),
        _ => panic!("expected NotFound"),
    }
    reg.register("v18.0.0", 7).ok().unwrap();
    assert!(matches!(reg.lookup("20.0.0"), Err(TaskError::NotFound(_))));
    assert!(matches!(reg.lookup("v20.0.0"), Err(TaskError::NotFound(_))));
}

#[test]
fn lookup_accepts_either_version_form() {
    let mut reg: TaskRegistry<u32> = TaskRegistry::new();
    reg.register("v20.0.0", 5).ok().unwrap();
    let bare = reg.lookup("20.0.0").ok().unwrap();
    assert_eq!(bare.id, "v20.0.0");
    assert_eq!(bare.handles, 5);
    let full = reg.lookup("v20.0.0").ok().unwrap();
    assert_eq!(full.id, "v20.0.0");
}

#[test]
fn lookup_prefers_the_exact_id() {
    let mut reg: TaskRegistry<u32> = TaskRegistry::new();
    reg.register("lodash", 1).ok().unwrap();
    reg.register("vlodash", 2).ok().unwrap();
    assert_eq!(reg.lookup("lodash").ok().map(|e| e.handles), Some(1));
    // an id that starts with `v` gets no second form
    reg.unregister("vlodash");
    reg.register("vvue", 3).ok().unwrap();
    assert!(matches!(reg.lookup("vue"), Err(TaskError::NotFound(_))));
    assert!(matches!(reg.lookup("vvue"), Ok(_)));
}

#[test]
fn cancel_after_unregister_is_not_found() {
    let mut reg: TaskRegistry<u32> = TaskRegistry::new();
    start_download(&mut reg, "16.20.2", 9).ok().unwrap();
    assert!(reg.lookup("16.20.2").is_ok());
    reg.unregister("v16.20.2");
    assert!(matches!(reg.lookup("16.20.2"), Err(TaskError::NotFound(_))));
    assert!(!reg.contains("v16.20.2"));
}

#[test]
fn register_refuses_exact_duplicate_only() {
    let mut reg: TaskRegistry<u32> = TaskRegistry::new();
    assert!(reg.register("a", 1).is_ok());
    match reg.register("a", 2) {
        Err(TaskError::AlreadyRunning(id)) => assert_eq!(id, "a"),
        _ => panic!("expected AlreadyRunning"),
    }
    assert!(reg.register("b", 2).is_ok());
    assert!(reg.contains("a") && reg.contains("b"));
    assert_eq!(reg.len(), 2);
}

#[test]
fn normalize_version_adds_prefix_once() {
    assert_eq!(normalize_version("20.0.0"), "v20.0.0");
    assert_eq!(normalize_version("v20.0.0"), "v20.0.0");
    assert_eq!(normalize_version(""), "v");
}
