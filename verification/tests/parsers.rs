use dbranch::btrfs::{
    BtrfsOperator, SubvolumeInfo, fallback_filesystem_info, find_device_by_path,
    parse_df_output, parse_leading_number, parse_qgroup_output, parse_subvolume_list,
    stderr_says_not_mounted,
};
use dbranch::config::Config;
use dbranch::docker::{
    PostgresOperator, build_container_spec, container_name, inspect_reports_running,
    network_listing_has,
};
use dbranch::copy_ref::CopyRefOperator;
use dbranch::snapshot::{TreeNode, snapshot};

const LOSETUP_LISTING: &str = "\
NAME       SIZELIMIT OFFSET AUTOCLEAR RO BACK-FILE                      DIO LOG-SEC
/dev/loop0 0         0      1         0  /var/lib/snapd/snap.img        0   512
/dev/loop7 0         0      0         0  /home/op/projects/demo/btrfs.img 0 512
";

#[test]
fn the_device_over_the_image_is_found_by_suffix() {
    let device = find_device_by_path(LOSETUP_LISTING, "demo/btrfs.img");
    assert_eq!(device.as_deref(), Some("/dev/loop7"));
    assert_eq!(find_device_by_path(LOSETUP_LISTING, "missing.img"), None);
}

#[test]
fn the_header_line_is_skipped() {
    // A target that only the header could match yields no device.
    let device = find_device_by_path("NAME SIZELIMIT OFFSET AUTOCLEAR RO BACK-FILE DIO LOG-SEC\n", "BACK-FILE");
    assert_eq!(device, None);
}

#[test]
fn malformed_loop_lines_never_match() {
    let listing = "header\n/dev/loop0 x y z w /some/btrfs.img 0 512\n";
    assert_eq!(find_device_by_path(listing, "btrfs.img"), None);
}

#[test]
fn subvolume_names_are_the_last_column() {
    let listing = "ID 256 gen 10 top level 5 path main\nID 257 gen 11 top level 5 path feature-x\n";
    let names = parse_subvolume_list(listing);
    assert_eq!(names, vec![String::from("main"), String::from("feature-x")]);
}

#[test]
fn du_sizes_read_the_first_token() {
    assert_eq!(parse_leading_number("409600\t/mnt/dbranch/demo/main\n"), 409600);
    assert_eq!(parse_leading_number("garbage here"), 0);
    assert_eq!(parse_leading_number(""), 0);
}

#[test]
fn df_output_reads_the_second_line() {
    let out = "Filesystem 1B-blocks Used Available Use% Mounted on\n/dev/loop7 1099511627776 4096 1099511623680 1% /mnt/dbranch/demo\n";
    let (total, used, available) = parse_df_output(out, 7).unwrap();
    assert_eq!(total, 1099511627776);
    assert_eq!(used, 4096);
    assert_eq!(available, 1099511623680);
    assert!(parse_df_output("only a header\n", 7).is_none());
}

#[test]
fn df_defaults_apply_to_unreadable_columns() {
    let out = "h\n/dev/loop7 notanumber 4096 10 1% /mnt\n";
    let (total, used, available) = parse_df_output(out, 42).unwrap();
    assert_eq!(total, 42);
    assert_eq!(used, 4096);
    assert_eq!(available, 10);
}

#[test]
fn qgroup_sizes_come_from_the_matching_line() {
    let out = "qgroupid rfer excl\n-------- ---- ----\n0/256 409600 4096 main\n0/257 500000 1000 feature-x\n";
    let (referenced, exclusive) = parse_qgroup_output(out, "feature-x", "/mnt/dbranch/demo/feature-x").unwrap();
    assert_eq!(referenced, 500000);
    assert_eq!(exclusive, 1000);
    assert!(parse_qgroup_output(out, "ghost", "/mnt/ghost").is_none());
}

#[test]
fn fallback_info_floors_available_at_zero() {
    assert_eq!(fallback_filesystem_info(100, 30), (100, 30, 70));
    assert_eq!(fallback_filesystem_info(100, 130), (100, 130, 0));
}

#[test]
fn unmount_tolerates_only_not_mounted() {
    assert!(stderr_says_not_mounted("umount: /mnt/dbranch/demo: not mounted."));
    assert!(!stderr_says_not_mounted("umount: /mnt/dbranch/demo: target is busy."));
}

#[test]
fn operator_paths_are_derived_from_the_project() {
    let op = BtrfsOperator::new("demo", "/home/op/projects/demo", "/mnt/dbranch");
    assert_eq!(op.img_path, "/home/op/projects/demo/btrfs.img");
    assert_eq!(op.mount_point, "/mnt/dbranch/demo");
    assert_eq!(op.size, 1099511627776);
}

#[test]
fn only_successful_readings_are_kept() {
    let op = BtrfsOperator::new("demo", "/p", "/mnt");
    let keep = SubvolumeInfo {
        name: String::from("main"),
        path: String::from("/mnt/demo/main"),
        referenced_size: 1,
        exclusive_size: 2,
    };
    let infos = op.get_all_subvolumes_info(vec![Some(keep), None]);
    assert_eq!(infos.len(), 1);
    assert_eq!(infos[0].name, "main");
}

#[test]
fn container_names_join_project_and_branch() {
    assert_eq!(container_name("demo", "main"), "demo_main");
    assert_eq!(container_name("demo", "feature-x"), "demo_feature-x");
}

#[test]
fn inspect_payloads_report_running() {
    assert!(inspect_reports_running("{\"State\":{\"Running\":true}}"));
    assert!(inspect_reports_running("{\"State\": {\"Running\": true}}"));
    assert!(!inspect_reports_running("{\"State\":{\"Running\":false}}"));
    assert!(!inspect_reports_running(""));
}

#[test]
fn network_listings_are_checked_for_the_name() {
    assert!(network_listing_has("NETWORK ID  NAME\nabcd  dbranch-network\n", "dbranch-network"));
    assert!(!network_listing_has("NETWORK ID  NAME\n", "dbranch-network"));
}

#[test]
fn container_specs_carry_the_whole_runtime_setup() {
    let _op = PostgresOperator::new();
    let mut config = Config::new(String::from("demo"), 7000);
    config.create_branch(String::from("feature-x"), 7001);
    let spec = build_container_spec(&config, 7001, "feature-x");
    assert_eq!(spec.image, "postgres:17-alpine");
    assert_eq!(spec.container_name, "demo_feature-x");
    assert_eq!(spec.host_port, 7001);
    assert_eq!(spec.container_port, 5432);
    assert_eq!(spec.network, "dbranch-network");
    assert_eq!(spec.user, "1000:1000");
    assert_eq!(spec.volume_host, "/mnt/dbranch/demo/feature-x/data");
    assert_eq!(spec.volume_container, "/var/lib/postgresql/data");
    assert_eq!(spec.env_user, "dbranch_user");
    assert_eq!(spec.env_password, "dbranch_password");
    assert_eq!(spec.env_db, "dbranch");
    assert_eq!(spec.pgdata, "/var/lib/postgresql/data/pgdata");
    assert_eq!(spec.restart, "no");
    assert!(spec.detach);
}

#[test]
fn the_copier_constructs() {
    let _op = CopyRefOperator::new();
}

fn leaf(name: &str, bytes: &[u8]) -> TreeNode {
    TreeNode::Leaf { name: String::from(name), content: bytes.to_vec() }
}

fn file_bytes<'a>(t: &'a TreeNode, path: &[&str]) -> Option<&'a Vec<u8>> {
    match t {
        TreeNode::Leaf { content, .. } => {
            if path.is_empty() {
                Some(content)
            } else {
                None
            }
        }
        TreeNode::Dir { entries, .. } => {
            if path.is_empty() {
                return None;
            }
            for e in entries {
                let name = match e {
                    TreeNode::Leaf { name, .. } => name,
                    TreeNode::Dir { name, .. } => name,
                };
                if name == path[0] {
                    return file_bytes(e, &path[1..]);
                }
            }
            None
        }
    }
}

#[test]
fn snapshots_mirror_every_file_with_identical_bytes() {
    let tree = TreeNode::Dir {
        name: String::from("data"),
        entries: vec![
            leaf("seed.bin", &[7u8; 64]),
            TreeNode::Dir {
                name: String::from("base"),
                entries: vec![leaf("pg_control", b"control-file"), leaf("empty", b"")],
            },
        ],
    };
    let copy = snapshot(&tree);
    assert_eq!(
        file_bytes(&copy, &["seed.bin"]).unwrap(),
        file_bytes(&tree, &["seed.bin"]).unwrap()
    );
    assert_eq!(
        file_bytes(&copy, &["base", "pg_control"]).unwrap(),
        file_bytes(&tree, &["base", "pg_control"]).unwrap()
    );
    assert_eq!(file_bytes(&copy, &["base", "empty"]).unwrap(), &Vec::<u8>::new());
    assert!(file_bytes(&copy, &["missing"]).is_none());
}
