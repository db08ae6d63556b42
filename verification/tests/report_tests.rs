use better_ls::report::{missing_message, plan_listing, unreadable_message, ListingPlan};

#[test]
fn existing_path_lists_in_the_chosen_mode() {
    assert_eq!(plan_listing(Some(true), true), ListingPlan::Structured);
    assert_eq!(plan_listing(Some(true), false), ListingPlan::Tabular);
}

#[test]
fn missing_path_is_reported_and_never_listed() {
    assert_eq!(plan_listing(Some(false), true), ListingPlan::Missing);
    assert_eq!(plan_listing(Some(false), false), ListingPlan::Missing);
}

#[test]
fn failed_existence_check_is_reported_distinctly() {
    assert_eq!(plan_listing(None, true), ListingPlan::Unreadable);
    assert_eq!(plan_listing(None, false), ListingPlan::Unreadable);
    assert_ne!(plan_listing(None, false), ListingPlan::Missing);
}

#[test]
fn messages_are_fixed() {
    assert_eq!(missing_message(), "Path does not exist.\n");
    assert_eq!(unreadable_message(), "Error: Unable to read the dir.\n");
}
