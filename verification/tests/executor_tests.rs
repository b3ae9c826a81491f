use sorterylib::executor::Executor;
use sorterylib::planner::SortPlan;
use sorterylib::structs::File;

fn four_step_plan() -> SortPlan {
    SortPlan {
        total_eligible: 4,
        sources: vec![
            File::new("s/a.jpg"),
            File::new("s/b.jpg"),
            File::new("s/c.jpg"),
            File::new("s/d.jpg"),
        ],
        destinations: vec![
            File::new("t/2022/01/a.jpg"),
            File::new("t/2022/01/b.jpg"),
            File::new("t/2022/01/c.jpg"),
            File::new("t/2022/01/d.jpg"),
        ],
    }
}

#[test]
fn test_rename_failure_aborts_the_batch() {
    // The second of four renames fails: the first has been performed, the
    // third and fourth are never handed out.
    let mut exec = Executor::new(four_step_plan(), false);

    let first = exec.pending_rename().expect("first rename expected");
    assert_eq!(first.0.to_string(), "s/a.jpg");
    assert_eq!(first.1.to_string(), "t/2022/01/a.jpg");
    exec.record_success();

    let second = exec.pending_rename().expect("second rename expected");
    assert_eq!(second.0.to_string(), "s/b.jpg");
    let err = exec.record_failure();
    match err {
        sorterylib::errors::SortError::RenameFailed { source, destination } => {
            assert_eq!(source, "s/b.jpg");
            assert_eq!(destination, "t/2022/01/b.jpg");
        }
        _ => panic!("expected RenameFailed"),
    }

    // The failure is reported and nothing further is handed out.
    assert!(exec.failed);
    assert!(exec.pending_rename().is_none());
    assert!(!exec.remaining());
    assert_eq!(exec.done, 1);
}

#[test]
fn test_dry_run_hands_out_no_renames() {
    let mut exec = Executor::new(four_step_plan(), true);
    let mut steps = 0;
    while exec.remaining() {
        assert!(exec.pending_rename().is_none());
        exec.record_success();
        steps += 1;
    }
    assert_eq!(steps, 4);
    let (count, sources, destinations) = exec.into_results();
    assert_eq!(count, 4);
    assert_eq!(sources.len(), 4);
    assert_eq!(destinations.len(), 4);
}

#[test]
fn test_progress_percentages() {
    let plan = SortPlan {
        total_eligible: 3,
        sources: vec![File::new("a"), File::new("b"), File::new("c")],
        destinations: vec![File::new("x"), File::new("y"), File::new("z")],
    };
    let mut exec = Executor::new(plan, false);
    let mut v: Vec<(usize, usize, usize)> = Vec::new();
    while exec.remaining() {
        exec.record_success();
        v.push(exec.progress());
    }
    assert_eq!(v, vec![(1, 3, 33), (2, 3, 66), (3, 3, 100)]);
}
