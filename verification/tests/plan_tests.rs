use sorterylib::errors::SortError;
use sorterylib::stamp::EntryTimes;
use sorterylib::stamp::FsEntry;
use sorterylib::stamp::LocalStamp;
use sorterylib::structs::File;
use sorterylib::Sorter;

/// 2022-01-01T10:32:02, as local calendar fields.
fn stamp_2022() -> LocalStamp {
    LocalStamp { year: 2022, month: 1, day: 1, hour: 10, minute: 32, second: 2 }
}

/// A file entry with every timestamp set to `secs`.
fn file_entry(path: &str, secs: i64) -> FsEntry {
    FsEntry {
        path: File::new(path),
        is_dir: false,
        times: Some(EntryTimes { modified: secs, accessed: secs, created: Some(secs) }),
    }
}

/// A directory entry.
fn dir_entry(path: &str) -> FsEntry {
    FsEntry {
        path: File::new(path),
        is_dir: true,
        times: Some(EntryTimes { modified: 0, accessed: 0, created: Some(0) }),
    }
}

fn sorter(
    date_format: &str,
    date_type: &str,
    preserve_name: bool,
    exclude: Vec<String>,
    only: Vec<String>,
) -> Sorter {
    Sorter {
        source: File::new("testing"),
        target: File::new("testing/target"),
        date_format: String::from(date_format),
        date_type: String::from(date_type),
        preserve_name,
        exclude_type: exclude,
        only_type: only,
    }
}

// The modification time used throughout: 2022-01-01T10:32:02Z.
const MTIME: i64 = 1641033122;

#[test]
fn test_sorter_dry_run() {
    let s = sorter("%Y", "m", true, vec![String::from("txt")], Vec::new());
    let entries = vec![
        dir_entry("testing"),
        file_entry("testing/test.jpg", MTIME),
        file_entry("testing/test", MTIME),
        dir_entry("testing/files"),
        file_entry("testing/files/test", MTIME),
        file_entry("testing/test.png", MTIME),
    ];
    let stamps = vec![Some(stamp_2022()); 4];
    let plan = s.plan_with_stamps(&entries, &stamps).expect("Planning failed.");

    assert_eq!(plan.total_eligible, 4);
    assert_eq!(plan.sources.len(), 4);
    assert_eq!(plan.destinations.len(), 4);
    assert_eq!(plan.sources[0].to_string(), "testing/test.jpg");
    assert_eq!(plan.destinations[0].to_string(), "testing/target/2022/01/2022 test.jpg");
    assert_eq!(plan.sources[1].to_string(), "testing/test");
    assert_eq!(plan.destinations[1].to_string(), "testing/target/2022/01/2022 test.");
    assert_eq!(plan.sources[2].to_string(), "testing/files/test");
    assert_eq!(plan.destinations[2].to_string(), "testing/target/2022/01/2022 test_2.");
    assert_eq!(plan.sources[3].to_string(), "testing/test.png");
    assert_eq!(plan.destinations[3].to_string(), "testing/target/2022/01/2022 test.png");

    // A dry run hands out no renames, but still reports progress per item.
    let mut exec = sorterylib::executor::Executor::new(plan, true);
    let mut v: Vec<(usize, usize, usize)> = Vec::new();
    while exec.remaining() {
        assert!(exec.pending_rename().is_none());
        exec.record_success();
        v.push(exec.progress());
    }
    assert_eq!(v, vec![(1, 4, 25), (2, 4, 50), (3, 4, 75), (4, 4, 100)]);
}

#[test]
fn test_no_extension_without_preserve_name() {
    // A file with no extension and preserve_name off gets exactly
    // `<formatted-date>.` as its destination name, trailing dot included.
    let s = sorter("%Y", "m", false, Vec::new(), Vec::new());
    let entries = vec![file_entry("testing/test", MTIME)];
    let stamps = vec![Some(stamp_2022())];
    let plan = s.plan_with_stamps(&entries, &stamps).expect("Planning failed.");
    assert_eq!(plan.destinations[0].to_string(), "testing/target/2022/01/2022.");
}

#[test]
fn test_only_type_overrides_exclude_type() {
    // With a non-empty only-list, the exclude list has no effect at all.
    let entries = vec![
        file_entry("testing/a.jpg", MTIME),
        file_entry("testing/b.png", MTIME),
        file_entry("testing/c.txt", MTIME),
    ];
    let stamps = vec![Some(stamp_2022()); 3];
    let with_exclude = sorter(
        "%Y",
        "m",
        true,
        vec![String::from("jpg"), String::from("png")],
        vec![String::from("jpg")],
    );
    let without_exclude = sorter("%Y", "m", true, Vec::new(), vec![String::from("jpg")]);

    let p1 = with_exclude.plan_with_stamps(&entries, &stamps).expect("Planning failed.");
    let p2 = without_exclude.plan_with_stamps(&entries, &stamps).expect("Planning failed.");

    assert_eq!(p1.total_eligible, 1);
    assert_eq!(p1.sources[0].to_string(), "testing/a.jpg");
    assert_eq!(p2.total_eligible, 1);
    assert_eq!(p2.sources[0].to_string(), "testing/a.jpg");
    assert_eq!(p1.destinations[0].to_string(), p2.destinations[0].to_string());
}

#[test]
fn test_empty_extension_matches_configured_empty_entry() {
    // An explicitly configured empty extension excludes extensionless files.
    let s = sorter("%Y", "m", true, vec![String::from("")], Vec::new());
    let entries = vec![file_entry("testing/noext", MTIME), file_entry("testing/a.jpg", MTIME)];
    let stamps = vec![Some(stamp_2022()); 2];
    let plan = s.plan_with_stamps(&entries, &stamps).expect("Planning failed.");
    assert_eq!(plan.total_eligible, 1);
    assert_eq!(plan.sources[0].to_string(), "testing/a.jpg");
}

#[test]
fn test_collision_suffixes_run_in_traversal_order() {
    // Three files collide onto one candidate: the first keeps the plain
    // name, the rest get the suffixes 2 and 3 in traversal order.
    let s = sorter("%Y", "m", true, Vec::new(), Vec::new());
    let entries = vec![
        file_entry("testing/a/x.jpg", MTIME),
        file_entry("testing/b/x.jpg", MTIME),
        file_entry("testing/c/x.jpg", MTIME),
    ];
    let stamps = vec![Some(stamp_2022()); 3];
    let plan = s.plan_with_stamps(&entries, &stamps).expect("Planning failed.");
    assert_eq!(plan.destinations[0].to_string(), "testing/target/2022/01/2022 x.jpg");
    assert_eq!(plan.destinations[1].to_string(), "testing/target/2022/01/2022 x_2.jpg");
    assert_eq!(plan.destinations[2].to_string(), "testing/target/2022/01/2022 x_3.jpg");
}

#[test]
fn test_collision_numbering_amid_unrelated_files() {
    // Three files collide onto one candidate while unrelated files sit
    // between them: the colliding ones are still numbered plain, _2, _3 in
    // traversal order, and the others are untouched.
    let s = sorter("%Y", "m", true, Vec::new(), Vec::new());
    let entries = vec![
        file_entry("testing/a/x.jpg", MTIME),
        file_entry("testing/other.png", MTIME),
        file_entry("testing/b/x.jpg", MTIME),
        file_entry("testing/note.txt", MTIME),
        file_entry("testing/c/x.jpg", MTIME),
    ];
    let stamps = vec![Some(stamp_2022()); 5];
    let plan = s.plan_with_stamps(&entries, &stamps).expect("Planning failed.");
    assert_eq!(plan.destinations[0].to_string(), "testing/target/2022/01/2022 x.jpg");
    assert_eq!(plan.destinations[1].to_string(), "testing/target/2022/01/2022 other.png");
    assert_eq!(plan.destinations[2].to_string(), "testing/target/2022/01/2022 x_2.jpg");
    assert_eq!(plan.destinations[3].to_string(), "testing/target/2022/01/2022 note.txt");
    assert_eq!(plan.destinations[4].to_string(), "testing/target/2022/01/2022 x_3.jpg");
}

#[test]
fn test_unrepresentable_timestamp_is_unsupported() {
    // A modification time far outside any calendar range cannot be sorted.
    let s = sorter("%Y", "m", true, Vec::new(), Vec::new());
    let entries = vec![file_entry("testing/a.jpg", i64::MAX)];
    let r = s.plan(&entries);
    match r {
        Err(SortError::TimestampKindUnsupported { path }) => assert_eq!(path, "testing/a.jpg"),
        _ => panic!("expected TimestampKindUnsupported"),
    }
}

#[test]
fn test_date_directory_is_zero_padded() {
    // Year 33, month 7 renders as `0033/07/`.
    let s = sorter("%m", "m", false, Vec::new(), Vec::new());
    let entries = vec![file_entry("testing/a.jpg", MTIME)];
    let stamps =
        vec![Some(LocalStamp { year: 33, month: 7, day: 2, hour: 1, minute: 2, second: 3 })];
    let plan = s.plan_with_stamps(&entries, &stamps).expect("Planning failed.");
    assert_eq!(plan.destinations[0].to_string(), "testing/target/0033/07/07.jpg");
}

#[test]
fn test_metadata_unavailable_aborts_planning() {
    let s = sorter("%Y", "m", true, Vec::new(), Vec::new());
    let entries = vec![
        file_entry("testing/a.jpg", MTIME),
        FsEntry { path: File::new("testing/broken"), is_dir: false, times: None },
    ];
    // The error comes from the full planning entry point as well.
    let r = s.plan(&entries);
    match r {
        Err(SortError::MetadataUnavailable { path }) => assert_eq!(path, "testing/broken"),
        _ => panic!("expected MetadataUnavailable"),
    }
}

#[test]
fn test_missing_creation_time_is_unsupported() {
    // Sorting by creation time fails on a file whose platform exposes none.
    let s = sorter("%Y", "c", true, Vec::new(), Vec::new());
    let entries = vec![FsEntry {
        path: File::new("testing/a.jpg"),
        is_dir: false,
        times: Some(EntryTimes { modified: MTIME, accessed: MTIME, created: None }),
    }];
    let r = s.plan(&entries);
    match r {
        Err(SortError::TimestampKindUnsupported { path }) => assert_eq!(path, "testing/a.jpg"),
        _ => panic!("expected TimestampKindUnsupported"),
    }
}

#[test]
fn test_unrenderable_date_format_is_reported() {
    // `%!` is no strftime item chrono can render.
    let s = sorter("%!", "m", true, Vec::new(), Vec::new());
    let entries = vec![file_entry("testing/a.jpg", MTIME)];
    let stamps = vec![Some(stamp_2022())];
    let r = s.plan_with_stamps(&entries, &stamps);
    match r {
        Err(SortError::DateFormatInvalid { path }) => assert_eq!(path, "testing/a.jpg"),
        _ => panic!("expected DateFormatInvalid"),
    }
}

#[test]
fn test_replanning_unchanged_entries_is_identical() {
    let s = sorter("%Y", "m", true, vec![String::from("txt")], Vec::new());
    let entries = vec![
        file_entry("testing/test.jpg", MTIME),
        file_entry("testing/test", MTIME),
        file_entry("testing/files/test", MTIME),
    ];
    let stamps = vec![Some(stamp_2022()); 3];
    let p1 = s.plan_with_stamps(&entries, &stamps).expect("Planning failed.");
    let p2 = s.plan_with_stamps(&entries, &stamps).expect("Planning failed.");
    assert_eq!(p1.total_eligible, p2.total_eligible);
    for i in 0..p1.sources.len() {
        assert_eq!(p1.sources[i].to_string(), p2.sources[i].to_string());
        assert_eq!(p1.destinations[i].to_string(), p2.destinations[i].to_string());
    }
}
