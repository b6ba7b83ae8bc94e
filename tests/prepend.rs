use vishvakarman::folder_accumulate::{AccumulateError, Op};
use vishvakarman::prepend_date::{plan_prepend_date, PrependConfig, Target};
use vishvakarman::utils::{AccumulateType, CandidateEntry};

const MAR_1_2024: i64 = 1_709_251_200;

fn entry(name: &str, is_dir: bool, created: Option<i64>) -> CandidateEntry {
    CandidateEntry { name: name.to_string(), is_dir, created, modified: None }
}

fn path(parts: &[&str]) -> Vec<String> {
    parts.iter().map(|p| p.to_string()).collect()
}

fn config(target: Target) -> PrependConfig {
    PrependConfig {
        target,
        accumulate_type: AccumulateType::Created,
        excluded: vec![".DS_Store".to_string()],
    }
}

#[test]
fn prepend_renames_directories_only() {
    let listing = vec![
        entry("trip", true, Some(MAR_1_2024)),
        entry("a.jpg", false, Some(MAR_1_2024)),
    ];
    let plan = plan_prepend_date(&config(Target::Directories), &listing);
    assert!(plan.error.is_none());
    assert_eq!(plan.ops, vec![Op::Move(path(&["trip"]), path(&["2024-03-01 - trip"]))]);
}

#[test]
fn prepend_renames_files_and_skips_excluded() {
    let listing = vec![
        entry("trip", true, Some(MAR_1_2024)),
        entry(".DS_Store", false, Some(MAR_1_2024)),
        entry("a.jpg", false, Some(MAR_1_2024)),
    ];
    let plan = plan_prepend_date(&config(Target::Files), &listing);
    assert_eq!(plan.ops, vec![Op::Move(path(&["a.jpg"]), path(&["2024-03-01 - a.jpg"]))]);
}

#[test]
fn prepend_skips_names_it_produced() {
    let listing = vec![
        entry("a", false, Some(MAR_1_2024)),
        entry("2024-03-01 - a", false, Some(MAR_1_2024)),
    ];
    let plan = plan_prepend_date(&config(Target::All), &listing);
    assert_eq!(plan.ops, vec![Op::Move(path(&["a"]), path(&["2024-03-01 - a"]))]);
}

#[test]
fn prepend_missing_timestamp() {
    let listing = vec![entry("a", false, Some(MAR_1_2024)), entry("b", false, None)];
    let plan = plan_prepend_date(&config(Target::All), &listing);
    assert_eq!(plan.ops.len(), 1);
    assert_eq!(plan.error, Some(AccumulateError::MetadataUnavailable(path(&["b"]))));
}
