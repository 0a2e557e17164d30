use dbranch::config::Config;
use dbranch::errors::AppError;
use dbranch::lifecycle::SystemState;
use dbranch::proxy::{Forwarder, resolve_backend_port};

fn running_names(s: &SystemState) -> Vec<String> {
    s.project.as_ref().unwrap().running.clone()
}

#[test]
fn init_provisions_main() {
    let mut s = SystemState::new();
    s.init(String::from("demo"), 7000).unwrap();
    let p = s.project.as_ref().unwrap();
    assert!(p.image_exists);
    assert!(p.mounted);
    assert_eq!(p.subvols, vec![String::from("main")]);
    assert_eq!(p.running, vec![String::from("main")]);
    assert_eq!(p.config.name, "demo");
    assert_eq!(p.config.branches.len(), 1);
}

#[test]
fn init_twice_reports_project_already_exists() {
    let mut s = SystemState::new();
    s.init(String::from("demo"), 7000).unwrap();
    let err = s.init(String::from("demo"), 7001).unwrap_err();
    assert!(matches!(err, AppError::ProjectAlreadyExists { .. }));
}

#[test]
fn create_snapshots_a_subvolume_and_starts_a_container() {
    let mut s = SystemState::new();
    s.init(String::from("demo"), 7000).unwrap();
    s.create(String::from("feature-x"), 7001).unwrap();
    let p = s.project.as_ref().unwrap();
    assert!(p.subvols.contains(&String::from("feature-x")));
    assert!(p.running.contains(&String::from("feature-x")));
    assert_eq!(p.config.branch_port("feature-x"), Some(7001));
}

#[test]
fn every_known_branch_has_a_subvolume_on_a_mounted_project() {
    let mut s = SystemState::new();
    s.init(String::from("demo"), 7000).unwrap();
    s.create(String::from("feature-x"), 7001).unwrap();
    s.create(String::from("feature-y"), 7002).unwrap();
    let p = s.project.as_ref().unwrap();
    assert!(p.mounted);
    for b in &p.config.branches {
        assert!(p.subvols.contains(&b.name));
    }
}

#[test]
fn creating_a_duplicate_branch_is_refused() {
    let mut s = SystemState::new();
    s.init(String::from("demo"), 7000).unwrap();
    s.create(String::from("feature-x"), 7001).unwrap();
    let err = s.create(String::from("feature-x"), 7002).unwrap_err();
    assert!(matches!(err, AppError::BranchAlreadyExists { .. }));
    let err = s.create(String::from("main"), 7003).unwrap_err();
    assert!(matches!(err, AppError::BranchAlreadyExists { .. }));
}

#[test]
fn create_without_a_project_reports_it() {
    let mut s = SystemState::new();
    let err = s.create(String::from("feature-x"), 7001).unwrap_err();
    assert!(matches!(err, AppError::DefaultProjectNotFound));
}

#[test]
fn delete_removes_record_subvolume_and_container() {
    let mut s = SystemState::new();
    s.init(String::from("demo"), 7000).unwrap();
    s.create(String::from("feature-x"), 7001).unwrap();
    s.delete("feature-x").unwrap();
    let p = s.project.as_ref().unwrap();
    assert!(!p.subvols.contains(&String::from("feature-x")));
    assert!(!p.running.contains(&String::from("feature-x")));
    assert_eq!(p.config.branch_port("feature-x"), None);
    let err = s.delete("main").unwrap_err();
    assert!(matches!(err, AppError::Permission { .. }));
}

#[test]
fn stop_then_resume_preserves_containers_and_ports() {
    let mut s = SystemState::new();
    s.init(String::from("demo"), 7000).unwrap();
    s.create(String::from("feature-x"), 7001).unwrap();
    let before = running_names(&s);
    let ports_before: Vec<u16> =
        s.project.as_ref().unwrap().config.branches.iter().map(|b| b.port).collect();
    s.stop().unwrap();
    assert!(running_names(&s).is_empty());
    s.resume().unwrap();
    assert_eq!(running_names(&s), before);
    let ports_after: Vec<u16> =
        s.project.as_ref().unwrap().config.branches.iter().map(|b| b.port).collect();
    assert_eq!(ports_before, ports_after);
    assert!(s.project.as_ref().unwrap().mounted);
}

#[test]
fn delete_project_is_idempotent() {
    let mut s = SystemState::new();
    s.init(String::from("demo"), 7000).unwrap();
    s.create(String::from("feature-x"), 7001).unwrap();
    s.delete_project("demo").unwrap();
    assert!(s.project.is_none());
    s.delete_project("demo").unwrap();
    assert!(s.project.is_none());
}

#[test]
fn delete_project_with_a_wrong_name_reports_it() {
    let mut s = SystemState::new();
    s.init(String::from("demo"), 7000).unwrap();
    let err = s.delete_project("other").unwrap_err();
    match err {
        AppError::ProjectNotFound { name } => assert_eq!(name, "other"),
        other => panic!("unexpected error: {:?}", other),
    }
    assert!(s.project.is_some());
}

#[test]
fn resume_with_the_image_gone_reports_a_mount_failure() {
    let mut s = SystemState::new();
    s.init(String::from("demo"), 7000).unwrap();
    s.project.as_mut().unwrap().image_exists = false;
    s.project.as_mut().unwrap().mounted = false;
    let err = s.resume().unwrap_err();
    assert!(matches!(err, AppError::DiskMount { .. }));
}

#[test]
fn switch_is_observed_by_new_resolutions_only() {
    let mut config = Config::new(String::from("demo"), 7000);
    config.create_branch(String::from("feature-x"), 7001);
    // A connection accepted while main is active resolves to main's port.
    let before = resolve_backend_port(&config).unwrap();
    assert_eq!(before, 7000);
    // The switch changes nothing about the port already handed out; a new
    // resolution against the new snapshot sees the new backend.
    config.set_active_branch(String::from("feature-x")).unwrap();
    assert_eq!(before, 7000);
    assert_eq!(resolve_backend_port(&config).unwrap(), 7001);
    config.set_active_branch(String::from("main")).unwrap();
    assert_eq!(resolve_backend_port(&config).unwrap(), 7000);
}

#[test]
fn resolution_fails_when_the_branch_vanished() {
    let mut config = Config::new(String::from("demo"), 7000);
    config.create_branch(String::from("feature-x"), 7001);
    config.set_active_branch(String::from("feature-x")).unwrap();
    config.remove_branch("feature-x").unwrap();
    assert_eq!(resolve_backend_port(&config), None);
}

#[test]
fn forwarder_delivers_exactly_what_it_took() {
    let mut f = Forwarder::new();
    f.accept_chunk(&vec![1, 2, 3]);
    f.accept_chunk(&vec![4]);
    let out = f.emit_chunk();
    assert_eq!(out, vec![1, 2, 3, 4]);
    f.accept_chunk(&vec![5, 6]);
    let out = f.emit_chunk();
    assert_eq!(out, vec![5, 6]);
    let out = f.emit_chunk();
    assert!(out.is_empty());
}
