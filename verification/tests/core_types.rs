use dbranch::accounting::{FileInfo, FolderInfo, file_info_from_extents, shared_length_sum};
use dbranch::fiemap::{ExtentScan, FiemapExtent, FiemapFlags, decorate_extents, extents_match};
use dbranch::ports::PortScan;
use dbranch::text::{chars_of, split_lines, split_tokens, str_eq, u64_to_chars};
use dbranch::timestamp::{Timestamp, format_age, parse_rfc3339_at};
use dbranch::errors::AppError;

fn extent(logical: u64, physical: u64, length: u64, flags: u32) -> FiemapExtent {
    FiemapExtent { fe_logical: logical, fe_physical: physical, fe_length: length, fe_flags: flags }
}

#[test]
fn from_bits_decodes_each_flag() {
    assert_eq!(FiemapFlags::from_bits(0x00000001), vec![FiemapFlags::Last]);
    assert_eq!(FiemapFlags::from_bits(0x00002000), vec![FiemapFlags::Shared]);
    assert_eq!(
        FiemapFlags::from_bits(0x00002001),
        vec![FiemapFlags::Last, FiemapFlags::Shared]
    );
    assert_eq!(FiemapFlags::from_bits(0), Vec::<FiemapFlags>::new());
    assert_eq!(
        FiemapFlags::from_bits(0x00000008 | 0x00000800),
        vec![FiemapFlags::Encoded, FiemapFlags::Unwritten]
    );
}

#[test]
fn empty_file_scan_ends_before_any_kernel_call() {
    let scan = ExtentScan::new(0);
    assert!(scan.done);
    assert!(scan.extents.is_empty());
}

#[test]
fn single_extent_with_last_ends_the_scan() {
    let mut scan = ExtentScan::new(4096);
    assert!(!scan.done);
    assert_eq!(scan.request_length(), 4096);
    let batch = vec![extent(0, 8192, 4096, 0x00000001)];
    scan.absorb_batch(&batch);
    assert!(scan.done);
    assert_eq!(scan.extents.len(), 1);
    assert_eq!(scan.extents[0].fe_length, 4096);
}

#[test]
fn scan_stops_after_last_flag_mid_batch() {
    let mut scan = ExtentScan::new(1 << 20);
    let batch = vec![
        extent(0, 0, 4096, 0),
        extent(4096, 4096, 4096, 0x00000001),
        extent(8192, 8192, 4096, 0),
    ];
    scan.absorb_batch(&batch);
    assert!(scan.done);
    assert_eq!(scan.extents.len(), 2);
}

#[test]
fn short_batch_ends_the_scan_and_advances_offset() {
    let mut scan = ExtentScan::new(1 << 20);
    let batch = vec![extent(0, 0, 4096, 0), extent(4096, 8192, 4096, 0)];
    scan.absorb_batch(&batch);
    assert!(scan.done);
    assert_eq!(scan.extents.len(), 2);
}

#[test]
fn extents_match_requires_shared_on_both_sides() {
    let shared = 0x00002000;
    let a = vec![extent(0, 100, 10, shared), extent(10, 110, 20, shared | 1)];
    let b = vec![extent(0, 100, 10, shared), extent(10, 110, 20, shared | 1)];
    assert!(extents_match(&a, &b));
    let c = vec![extent(0, 100, 10, 0), extent(10, 110, 20, shared)];
    assert!(!extents_match(&a, &c));
    let d = vec![extent(0, 100, 10, shared)];
    assert!(!extents_match(&a, &d));
    let e = vec![extent(0, 999, 10, shared), extent(10, 110, 20, shared)];
    assert!(!extents_match(&a, &e));
}

#[test]
fn empty_extent_lists_match() {
    let a: Vec<FiemapExtent> = Vec::new();
    let b: Vec<FiemapExtent> = Vec::new();
    assert!(extents_match(&a, &b));
}

#[test]
fn shared_sum_counts_only_shared_extents() {
    let shared = 0x00002000;
    let list = vec![extent(0, 0, 100, shared), extent(100, 100, 50, 0), extent(150, 150, 7, shared)];
    assert_eq!(shared_length_sum(&list), Some(107));
    assert_eq!(shared_length_sum(&Vec::new()), Some(0));
}

#[test]
fn shared_sum_overflow_is_reported() {
    let shared = 0x00002000;
    let list = vec![extent(0, 0, u64::MAX, shared), extent(0, 0, 1, shared)];
    assert_eq!(shared_length_sum(&list), None);
}

#[test]
fn file_info_records_compression_and_sharing() {
    let shared = 0x00002000;
    let encoded = 0x00000008;
    let list = vec![extent(0, 0, 64, shared | encoded), extent(64, 64, 64, 0)];
    let fi = file_info_from_extents(String::from("seed.bin"), 128, &list).unwrap();
    assert_eq!(fi.name, "seed.bin");
    assert_eq!(fi.real_size, 128);
    assert_eq!(fi.shared_size, 64);
    assert!(fi.is_compressed);
}

#[test]
fn folder_totals_accumulate_and_unique_size_subtracts() {
    let mut folder = FolderInfo::new();
    let a = FileInfo { real_size: 2 * 1024 * 1024, shared_size: 2 * 1024 * 1024, is_compressed: false, name: String::from("seed.bin") };
    let b = FileInfo { real_size: 4096, shared_size: 0, is_compressed: false, name: String::from("wal") };
    assert!(folder.add_file(a));
    assert!(folder.add_file(b));
    assert_eq!(folder.logical_size, 2 * 1024 * 1024 + 4096);
    assert_eq!(folder.shared_size, 2 * 1024 * 1024);
    assert_eq!(folder.unique_size(), 4096);
    let mut sub = FolderInfo::new();
    assert!(sub.add_file(FileInfo { real_size: 10, shared_size: 20, is_compressed: false, name: String::from("odd") }));
    assert!(folder.absorb(sub));
    assert_eq!(folder.files.len(), 3);
}

#[test]
fn unique_size_floors_at_zero() {
    let folder = FolderInfo { logical_size: 10, shared_size: 20, files: Vec::new() };
    assert_eq!(folder.unique_size(), 0);
}

#[test]
fn decorate_extents_pairs_each_extent_with_its_flags() {
    let list = vec![extent(0, 0, 10, 0x00002001)];
    let decorated = decorate_extents(&list);
    assert_eq!(decorated.len(), 1);
    assert_eq!(decorated[0].flags, vec![FiemapFlags::Last, FiemapFlags::Shared]);
}

#[test]
fn port_scan_walks_the_window_and_reports_exhaustion() {
    let mut scan = PortScan::new(7000, 7002);
    assert_eq!(scan.current(), Some(7000));
    scan.advance();
    assert_eq!(scan.current(), Some(7001));
    scan.advance();
    assert_eq!(scan.current(), Some(7002));
    scan.advance();
    assert_eq!(scan.current(), None);
}

#[test]
fn held_singleton_window_reports_its_bounds() {
    let mut scan = PortScan::new(7005, 7005);
    assert_eq!(scan.current(), Some(7005));
    scan.advance();
    assert_eq!(scan.current(), None);
    let err = scan.exhausted_error();
    assert!(matches!(err, AppError::NoPortAvailable { min: 7005, max: 7005 }));
}

#[test]
fn age_uses_the_largest_whole_unit() {
    assert_eq!(format_age(90_000), "1d");
    assert_eq!(format_age(86_400 * 3), "3d");
    assert_eq!(format_age(7_200), "2h");
    assert_eq!(format_age(3_600), "1h");
    assert_eq!(format_age(120), "2m");
    assert_eq!(format_age(59), "0m");
}

#[test]
fn rfc3339_renders_and_reads_back() {
    let t = Timestamp { year: 2026, month: 10, day: 11, hour: 7, minute: 5, second: 9 };
    let chars = t.rfc3339_chars();
    let text: String = chars.iter().collect();
    assert_eq!(text, "2026-10-11T07:05:09Z");
    let parsed = parse_rfc3339_at(&chars, 0).unwrap();
    assert_eq!(parsed.0, t);
    assert_eq!(parsed.1, 20);
}

#[test]
fn rfc3339_rejects_bad_fields() {
    let bad = chars_of("2026-13-11T07:05:09Z");
    assert!(parse_rfc3339_at(&bad, 0).is_none());
    let short = chars_of("2026-10-11");
    assert!(parse_rfc3339_at(&short, 0).is_none());
}

#[test]
fn decimal_rendering_is_plain() {
    let digits: String = u64_to_chars(0).iter().collect();
    assert_eq!(digits, "0");
    let digits: String = u64_to_chars(1099511627776).iter().collect();
    assert_eq!(digits, "1099511627776");
}

#[test]
fn tokenizer_splits_on_runs_of_whitespace() {
    let line = chars_of("  a  bb\tccc \n");
    let toks = split_tokens(&line);
    let views: Vec<String> = toks.iter().map(|t| t.iter().collect()).collect();
    assert_eq!(views, vec!["a", "bb", "ccc"]);
}

#[test]
fn line_splitter_keeps_final_newline_silent() {
    let text = chars_of("one\ntwo\n\nthree");
    let lines = split_lines(&text);
    let views: Vec<String> = lines.iter().map(|t| t.iter().collect()).collect();
    assert_eq!(views, vec!["one", "two", "", "three"]);
}

#[test]
fn string_round_trips_through_chars() {
    let v = chars_of("hé🙂llo");
    let s: String = v.iter().collect();
    assert_eq!(s, "hé🙂llo");
    assert!(str_eq("same", "same"));
    assert!(!str_eq("same", "sane"));
}
