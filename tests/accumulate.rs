use vishvakarman::folder_accumulate::organize_flat_directory::organize_flat_directory;
use vishvakarman::folder_accumulate::organize_recursive_directory::{
    organize_recursive_directory, TopEntry,
};
use vishvakarman::folder_accumulate::{
    contains_name, AccumulateError, AccumulationConfig, Args, Execution, Op, Plan,
};
use vishvakarman::utils::{AccumulateType, CandidateEntry};

const MAR_1_2024: i64 = 1_709_251_200;
const MAY_10_2024: i64 = 1_715_299_200;
const MAY_11_2024: i64 = 1_715_385_600;

fn s(x: &str) -> String {
    x.to_string()
}

fn path(parts: &[&str]) -> Vec<String> {
    parts.iter().map(|p| p.to_string()).collect()
}

fn file(name: &str, modified: i64) -> CandidateEntry {
    CandidateEntry { name: s(name), is_dir: false, created: None, modified: Some(modified) }
}

fn dir(name: &str) -> CandidateEntry {
    CandidateEntry { name: s(name), is_dir: true, created: None, modified: Some(MAR_1_2024) }
}

fn config(split: bool, recursive: bool) -> AccumulationConfig {
    let args = Args {
        directory: s("root"),
        accumulate_type: AccumulateType::Modified,
        recursive,
        silent: true,
        file_type_split: split,
        back: false,
    };
    AccumulationConfig::new(&args, vec![s("vishvakarman"), s(".DS_Store")])
}

/// Runs a plan against operations that all succeed.
fn run_all(plan: Plan) -> (Vec<Op>, Result<(), AccumulateError>) {
    let mut exec = Execution::new(plan);
    let mut done = Vec::new();
    while let Some(op) = exec.next_op() {
        done.push(op.clone());
        exec.record(true);
    }
    (done, exec.into_outcome())
}

#[test]
fn flat_type_split_scenario() {
    let cfg = config(true, false);
    let listing = vec![file("a.jpg", MAR_1_2024), file("b.txt", MAR_1_2024)];
    let plan = organize_flat_directory(&cfg, &listing);
    assert!(plan.error.is_none());
    assert_eq!(
        plan.ops,
        vec![
            Op::EnsureDir(path(&["image", "2024-03-01"])),
            Op::Move(path(&["a.jpg"]), path(&["image", "2024-03-01", "a.jpg"])),
            Op::EnsureDir(path(&["misc", "2024-03-01"])),
            Op::Move(path(&["b.txt"]), path(&["misc", "2024-03-01", "b.txt"])),
        ]
    );
    let (done, outcome) = run_all(plan);
    assert_eq!(done.len(), 4);
    assert_eq!(outcome, Ok(()));
}

#[test]
fn flat_without_split_uses_day_only() {
    let cfg = config(false, false);
    let listing = vec![file("a.jpg", MAR_1_2024), file("c.mov", MAY_10_2024)];
    let plan = organize_flat_directory(&cfg, &listing);
    assert!(plan.error.is_none());
    assert_eq!(
        plan.ops,
        vec![
            Op::EnsureDir(path(&["2024-03-01"])),
            Op::Move(path(&["a.jpg"]), path(&["2024-03-01", "a.jpg"])),
            Op::EnsureDir(path(&["2024-05-10"])),
            Op::Move(path(&["c.mov"]), path(&["2024-05-10", "c.mov"])),
        ]
    );
}

#[test]
fn flat_skips_directories_and_excluded_names() {
    let cfg = config(false, false);
    let listing = vec![
        dir("2024-01-01"),
        file(".DS_Store", MAR_1_2024),
        file("vishvakarman", MAR_1_2024),
        file("x.png", MAY_11_2024),
    ];
    let plan = organize_flat_directory(&cfg, &listing);
    assert!(plan.error.is_none());
    assert_eq!(
        plan.ops,
        vec![
            Op::EnsureDir(path(&["2024-05-11"])),
            Op::Move(path(&["x.png"]), path(&["2024-05-11", "x.png"])),
        ]
    );
}

#[test]
fn flat_second_pass_is_noop() {
    let cfg = config(false, false);
    let first = vec![file("a.jpg", MAR_1_2024), file(".DS_Store", MAR_1_2024)];
    let plan = organize_flat_directory(&cfg, &first);
    assert_eq!(plan.ops.len(), 2);
    let after = vec![dir("2024-03-01"), file(".DS_Store", MAR_1_2024)];
    let again = organize_flat_directory(&cfg, &after);
    assert!(again.ops.is_empty());
    assert!(again.error.is_none());
}

#[test]
fn flat_second_pass_with_split_is_noop() {
    let cfg = config(true, false);
    let after = vec![dir("image"), dir("misc")];
    let again = organize_flat_directory(&cfg, &after);
    assert!(again.ops.is_empty());
    assert!(again.error.is_none());
}

#[test]
fn flat_missing_timestamp_stops_plan() {
    let cfg = config(false, false);
    let mut broken = file("b.txt", 0);
    broken.modified = None;
    broken.created = Some(MAR_1_2024);
    let listing = vec![file("a.jpg", MAR_1_2024), broken, file("c.jpg", MAR_1_2024)];
    let plan = organize_flat_directory(&cfg, &listing);
    assert_eq!(plan.ops.len(), 2);
    assert_eq!(plan.error, Some(AccumulateError::MetadataUnavailable(path(&["b.txt"]))));
    let (done, outcome) = run_all(plan);
    assert_eq!(done.len(), 2);
    assert_eq!(outcome, Err(AccumulateError::MetadataUnavailable(path(&["b.txt"]))));
}

#[test]
fn flat_created_timestamp_is_used_when_chosen() {
    let args = Args {
        directory: s("root"),
        accumulate_type: AccumulateType::Created,
        recursive: false,
        silent: false,
        file_type_split: false,
        back: false,
    };
    let cfg = AccumulationConfig::new(&args, vec![]);
    let entry = CandidateEntry {
        name: s("a.jpg"),
        is_dir: false,
        created: Some(MAY_10_2024),
        modified: Some(MAR_1_2024),
    };
    let plan = organize_flat_directory(&cfg, &vec![entry]);
    assert_eq!(plan.ops[0], Op::EnsureDir(path(&["2024-05-10"])));
}

#[test]
fn fail_fast_on_create_failure() {
    let cfg = config(true, false);
    let listing = vec![file("a.jpg", MAR_1_2024), file("b.txt", MAR_1_2024)];
    let plan = organize_flat_directory(&cfg, &listing);
    let mut exec = Execution::new(plan);
    assert_eq!(exec.next_op(), Some(&Op::EnsureDir(path(&["image", "2024-03-01"]))));
    exec.record(true);
    exec.record(true);
    assert_eq!(exec.next_op(), Some(&Op::EnsureDir(path(&["misc", "2024-03-01"]))));
    exec.record(false);
    assert!(exec.is_finished());
    assert_eq!(exec.next_op(), None);
    assert_eq!(
        exec.into_outcome(),
        Err(AccumulateError::DestinationCreateFailed(path(&["misc", "2024-03-01"])))
    );
}

#[test]
fn fail_fast_on_first_create_moves_nothing() {
    let cfg = config(false, false);
    let listing = vec![file("a.jpg", MAR_1_2024), file("b.jpg", MAY_10_2024)];
    let mut exec = Execution::new(organize_flat_directory(&cfg, &listing));
    exec.record(false);
    assert_eq!(exec.next_op(), None);
    assert_eq!(
        exec.into_outcome(),
        Err(AccumulateError::DestinationCreateFailed(path(&["2024-03-01"])))
    );
}

#[test]
fn relocation_failure_is_reported_with_source() {
    let cfg = config(false, false);
    let listing = vec![file("a.jpg", MAR_1_2024)];
    let mut exec = Execution::new(organize_flat_directory(&cfg, &listing));
    exec.record(true);
    exec.record(false);
    assert_eq!(exec.into_outcome(), Err(AccumulateError::RelocationFailed(path(&["a.jpg"]))));
}

#[test]
fn empty_listing_succeeds_at_once() {
    let cfg = config(true, false);
    let plan = organize_flat_directory(&cfg, &vec![]);
    let exec = Execution::new(plan);
    assert!(exec.is_finished());
    assert_eq!(exec.into_outcome(), Ok(()));
}

fn sub(name: &str, children: Vec<CandidateEntry>) -> TopEntry {
    TopEntry { name: s(name), is_dir: true, children: Some(children) }
}

#[test]
fn recursive_scenario() {
    let cfg = config(false, true);
    let listing = vec![sub("trip", vec![file("x.png", MAY_10_2024), file("y.png", MAY_11_2024)])];
    let plan = organize_recursive_directory(&cfg, &listing);
    assert!(plan.error.is_none());
    assert_eq!(
        plan.ops,
        vec![
            Op::EnsureDir(path(&["2024-05-10 trip"])),
            Op::Move(path(&["trip", "x.png"]), path(&["2024-05-10 trip", "x.png"])),
            Op::EnsureDir(path(&["2024-05-11 trip"])),
            Op::Move(path(&["trip", "y.png"]), path(&["2024-05-11 trip", "y.png"])),
            Op::RemoveDir(path(&["trip"])),
        ]
    );
    let (done, outcome) = run_all(plan);
    assert_eq!(done.len(), 5);
    assert_eq!(outcome, Ok(()));
}

#[test]
fn recursive_ensures_each_destination_once() {
    let cfg = config(false, true);
    let listing = vec![sub("trip", vec![file("x.png", MAY_10_2024), file("z.png", MAY_10_2024)])];
    let plan = organize_recursive_directory(&cfg, &listing);
    assert_eq!(
        plan.ops,
        vec![
            Op::EnsureDir(path(&["2024-05-10 trip"])),
            Op::Move(path(&["trip", "x.png"]), path(&["2024-05-10 trip", "x.png"])),
            Op::Move(path(&["trip", "z.png"]), path(&["2024-05-10 trip", "z.png"])),
            Op::RemoveDir(path(&["trip"])),
        ]
    );
}

#[test]
fn recursive_leaves_top_files_and_nested_dirs() {
    let cfg = config(false, true);
    let listing = vec![
        TopEntry { name: s("loose.jpg"), is_dir: false, children: None },
        sub("album", vec![dir("nested"), file(".DS_Store", MAY_10_2024), file("p.jpg", MAR_1_2024)]),
    ];
    let plan = organize_recursive_directory(&cfg, &listing);
    assert!(plan.error.is_none());
    assert_eq!(
        plan.ops,
        vec![
            Op::EnsureDir(path(&["2024-03-01 album"])),
            Op::Move(path(&["album", "p.jpg"]), path(&["2024-03-01 album", "p.jpg"])),
            Op::RemoveDir(path(&["album"])),
        ]
    );
    let mut exec = Execution::new(plan);
    exec.record(true);
    exec.record(true);
    exec.record(false);
    assert_eq!(exec.into_outcome(), Err(AccumulateError::SourceRemovalFailed(path(&["album"]))));
}

#[test]
fn recursive_listing_failure() {
    let cfg = config(false, true);
    let listing = vec![
        sub("a", vec![file("x.png", MAY_10_2024)]),
        TopEntry { name: s("b"), is_dir: true, children: None },
        sub("c", vec![file("y.png", MAY_10_2024)]),
    ];
    let plan = organize_recursive_directory(&cfg, &listing);
    assert_eq!(plan.ops.len(), 3);
    assert_eq!(plan.error, Some(AccumulateError::DirectoryListingFailed(path(&["b"]))));
}

#[test]
fn recursive_missing_timestamp() {
    let cfg = config(false, true);
    let mut broken = file("y.png", 0);
    broken.modified = None;
    let listing = vec![sub("trip", vec![file("x.png", MAY_10_2024), broken])];
    let plan = organize_recursive_directory(&cfg, &listing);
    assert_eq!(plan.ops.len(), 2);
    assert_eq!(
        plan.error,
        Some(AccumulateError::MetadataUnavailable(path(&["trip", "y.png"])))
    );
}

#[test]
fn recursive_shared_destination_across_directories() {
    let cfg = config(false, true);
    let listing = vec![
        sub("a", vec![file("x.png", MAY_10_2024)]),
        sub("b", vec![file("y.png", MAY_10_2024)]),
    ];
    let plan = organize_recursive_directory(&cfg, &listing);
    assert_eq!(plan.ops[0], Op::EnsureDir(path(&["2024-05-10 a"])));
    assert_eq!(plan.ops[3], Op::EnsureDir(path(&["2024-05-10 b"])));
    assert_eq!(plan.ops.len(), 6);
}

#[test]
fn names_are_matched_exactly() {
    let names = vec![s(".DS_Store"), s("tool")];
    assert!(contains_name(&names, &s("tool")));
    assert!(!contains_name(&names, &s("Tool")));
    assert!(!contains_name(&vec![], &s("tool")));
}
