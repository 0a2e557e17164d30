use dbranch::codec::{from_json, to_json};
use dbranch::config::{Approach, Branch, Config, PostgresConfig};
use dbranch::errors::AppError;
use dbranch::timestamp::Timestamp;

fn stamp() -> Timestamp {
    Timestamp { year: 2026, month: 1, day: 2, hour: 3, minute: 4, second: 5 }
}

#[test]
fn new_config_carries_the_defaults() {
    let c = Config::new(String::from("demo"), 7000);
    assert_eq!(c.name, "demo");
    assert_eq!(c.api_port, 8000);
    assert_eq!(c.proxy_port, 5432);
    assert_eq!(c.port_min, 7000);
    assert_eq!(c.port_max, 7999);
    assert_eq!(c.mount_point, "/mnt/dbranch");
    assert!(c.active_branch.is_none());
    let pg = c.postgres_config.as_ref().unwrap();
    assert_eq!(pg.user, "dbranch_user");
    assert_eq!(pg.password, "dbranch_password");
    assert!(pg.database.is_none());
    assert_eq!(c.branches.len(), 1);
    assert_eq!(c.branches[0].name, "main");
    assert!(c.branches[0].is_main);
    assert_eq!(c.branches[0].port, 7000);
    assert!(c.branches[0].created_at.check_valid());
}

#[test]
fn branch_ports_stay_pairwise_distinct() {
    let mut c = Config::new(String::from("demo"), 7000);
    c.create_branch(String::from("feature-x"), 7001);
    c.create_branch(String::from("feature-y"), 7002);
    for i in 0..c.branches.len() {
        for j in 0..c.branches.len() {
            if i != j {
                assert_ne!(c.branches[i].port, c.branches[j].port);
            }
        }
    }
}

#[test]
fn exactly_one_branch_is_main() {
    let mut c = Config::new(String::from("demo"), 7000);
    c.create_branch(String::from("feature-x"), 7001);
    c.create_branch(String::from("feature-y"), 7002);
    assert_eq!(c.branches.iter().filter(|b| b.is_main).count(), 1);
    c.remove_branch("feature-x").unwrap();
    assert_eq!(c.branches.iter().filter(|b| b.is_main).count(), 1);
}

#[test]
fn main_branch_is_never_removed() {
    let mut c = Config::new(String::from("demo"), 7000);
    let err = c.remove_branch("main").unwrap_err();
    assert!(matches!(err, AppError::Permission { .. }));
    assert_eq!(c.branches.len(), 1);
}

#[test]
fn removing_an_unknown_branch_reports_it() {
    let mut c = Config::new(String::from("demo"), 7000);
    let err = c.remove_branch("ghost").unwrap_err();
    assert!(matches!(err, AppError::BranchNotFound { .. }));
}

#[test]
fn use_of_a_nonexistent_branch_reports_branch_not_found() {
    let mut c = Config::new(String::from("demo"), 7000);
    let err = c.set_active_branch(String::from("ghost")).unwrap_err();
    match err {
        AppError::BranchNotFound { name } => assert_eq!(name, "ghost"),
        other => panic!("unexpected error: {:?}", other),
    }
    assert!(c.active_branch.is_none());
}

#[test]
fn naming_main_clears_the_selection() {
    let mut c = Config::new(String::from("demo"), 7000);
    c.create_branch(String::from("feature-x"), 7001);
    c.set_active_branch(String::from("feature-x")).unwrap();
    assert_eq!(c.active_branch.as_deref(), Some("feature-x"));
    c.set_active_branch(String::from("main")).unwrap();
    assert!(c.active_branch.is_none());
}

#[test]
fn port_lookup_finds_the_branch() {
    let mut c = Config::new(String::from("demo"), 7000);
    c.create_branch(String::from("feature-x"), 7001);
    assert_eq!(c.branch_port("main"), Some(7000));
    assert_eq!(c.branch_port("feature-x"), Some(7001));
    assert_eq!(c.branch_port("ghost"), None);
    assert!(c.port_used(7001));
    assert!(!c.port_used(7002));
}

fn sample_config() -> Config {
    Config {
        name: String::from("demo"),
        api_port: 8000,
        proxy_port: 5432,
        created_at: stamp(),
        approach: Approach::ExistingDisk,
        port_min: 7000,
        port_max: 7999,
        mount_point: String::from("/mnt/dbranch"),
        active_branch: Some(String::from("feature-x")),
        postgres_config: Some(PostgresConfig {
            user: String::from("dbranch_user"),
            password: String::from("dbranch_password"),
            database: None,
        }),
        branches: vec![
            Branch { name: String::from("main"), port: 7000, is_main: true, created_at: stamp() },
            Branch {
                name: String::from("feature-x"),
                port: 7001,
                is_main: false,
                created_at: stamp(),
            },
        ],
    }
}

#[test]
fn save_load_save_is_byte_identical() {
    let c = sample_config();
    let first = to_json(&c);
    let loaded = from_json(first.as_str()).unwrap();
    let second = to_json(&loaded);
    assert_eq!(first, second);
}

#[test]
fn the_document_has_the_fixed_shape() {
    let mut c = sample_config();
    c.active_branch = None;
    c.branches.pop();
    let text = to_json(&c);
    let expected = "{\"name\":\"demo\",\"api_port\":8000,\"proxy_port\":5432,\"created_at\":\"2026-01-02T03:04:05Z\",\"approach\":\"EXISTING_DISK\",\"port_min\":7000,\"port_max\":7999,\"mount_point\":\"/mnt/dbranch\",\"active_branch\":null,\"postgres_config\":{\"user\":\"dbranch_user\",\"password\":\"dbranch_password\",\"database\":null},\"branches\":[{\"name\":\"main\",\"port\":7000,\"is_main\":true,\"created_at\":\"2026-01-02T03:04:05Z\"}]}";
    assert_eq!(text, expected);
}

#[test]
fn loading_recovers_every_field() {
    let c = sample_config();
    let text = to_json(&c);
    let loaded = from_json(text.as_str()).unwrap();
    assert_eq!(loaded.name, "demo");
    assert_eq!(loaded.api_port, 8000);
    assert_eq!(loaded.proxy_port, 5432);
    assert_eq!(loaded.created_at, stamp());
    assert_eq!(loaded.approach, Approach::ExistingDisk);
    assert_eq!(loaded.port_min, 7000);
    assert_eq!(loaded.port_max, 7999);
    assert_eq!(loaded.mount_point, "/mnt/dbranch");
    assert_eq!(loaded.active_branch.as_deref(), Some("feature-x"));
    assert_eq!(loaded.postgres_config.as_ref().unwrap().user, "dbranch_user");
    assert_eq!(loaded.branches.len(), 2);
    assert_eq!(loaded.branches[1].name, "feature-x");
    assert_eq!(loaded.branches[1].port, 7001);
    assert!(!loaded.branches[1].is_main);
}

#[test]
fn escaped_names_round_trip() {
    let mut c = sample_config();
    c.name = String::from("de\"mo\\zz");
    let text = to_json(&c);
    let loaded = from_json(text.as_str()).unwrap();
    assert_eq!(loaded.name, "de\"mo\\zz");
    assert_eq!(to_json(&loaded), text);
}

#[test]
fn unknown_approach_spelling_is_rejected() {
    let c = sample_config();
    let text = to_json(&c).replace("EXISTING_DISK", "SOME_DISK");
    let err = from_json(text.as_str()).unwrap_err();
    assert!(matches!(err, AppError::ConfigParsing { .. }));
}

#[test]
fn malformed_documents_are_rejected() {
    assert!(matches!(from_json(""), Err(AppError::ConfigParsing { .. })));
    assert!(matches!(from_json("{}"), Err(AppError::ConfigParsing { .. })));
    let c = sample_config();
    let mut text = to_json(&c);
    text.push('x');
    assert!(matches!(from_json(text.as_str()), Err(AppError::ConfigParsing { .. })));
}

#[test]
fn approach_spellings_are_the_persisted_ones() {
    assert_eq!(Approach::NewDisk.spelling(), "NEW_DISK");
    assert_eq!(Approach::ExistingDisk.spelling(), "EXISTING_DISK");
}

#[test]
fn error_categories_name_their_kind() {
    assert_eq!(AppError::DefaultProjectNotFound.category(), "default-project-not-found");
    assert_eq!(
        AppError::NoPortAvailable { min: 1, max: 2 }.category(),
        "no-port-available"
    );
}
