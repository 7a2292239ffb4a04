use image_manip::batch::{tally, ItemOutcome};

#[test]
fn tally_counts_successes_and_failures() {
    let outcomes = vec![
        ItemOutcome::Saved,
        ItemOutcome::DecodeFailed,
        ItemOutcome::Saved,
    ];
    assert_eq!(tally(&outcomes), (2, 1));
}

#[test]
fn tally_of_empty_batch_is_zero() {
    let outcomes: Vec<ItemOutcome> = Vec::new();
    assert_eq!(tally(&outcomes), (0, 0));
}

#[test]
fn tally_counts_save_failures_as_failures() {
    let outcomes = vec![
        ItemOutcome::SaveFailed,
        ItemOutcome::SaveFailed,
        ItemOutcome::Saved,
        ItemOutcome::DecodeFailed,
    ];
    assert_eq!(tally(&outcomes), (1, 3));
}

#[test]
fn outcome_success_is_exactly_saved() {
    assert!(ItemOutcome::Saved.is_success());
    assert!(!ItemOutcome::DecodeFailed.is_success());
    assert!(!ItemOutcome::SaveFailed.is_success());
}
