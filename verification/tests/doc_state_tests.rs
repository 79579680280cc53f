use oxur::design::doc::DocState;

#[test]
fn test_as_str_all_states() {
    assert_eq!(DocState::Draft.as_str(), "Draft");
    assert_eq!(DocState::UnderReview.as_str(), "Under Review");
    assert_eq!(DocState::Revised.as_str(), "Revised");
    assert_eq!(DocState::Accepted.as_str(), "Accepted");
    assert_eq!(DocState::Active.as_str(), "Active");
    assert_eq!(DocState::Final.as_str(), "Final");
    assert_eq!(DocState::Deferred.as_str(), "Deferred");
    assert_eq!(DocState::Rejected.as_str(), "Rejected");
    assert_eq!(DocState::Withdrawn.as_str(), "Withdrawn");
    assert_eq!(DocState::Superseded.as_str(), "Superseded");
}

#[test]
fn test_directory_all_states() {
    assert_eq!(DocState::Draft.directory(), "01-draft");
    assert_eq!(DocState::UnderReview.directory(), "02-under-review");
    assert_eq!(DocState::Revised.directory(), "03-revised");
    assert_eq!(DocState::Accepted.directory(), "04-accepted");
    assert_eq!(DocState::Active.directory(), "05-active");
    assert_eq!(DocState::Final.directory(), "06-final");
    assert_eq!(DocState::Deferred.directory(), "07-deferred");
    assert_eq!(DocState::Rejected.directory(), "08-rejected");
    assert_eq!(DocState::Withdrawn.directory(), "09-withdrawn");
    assert_eq!(DocState::Superseded.directory(), "10-superseded");
}

#[test]
fn test_from_str_flexible_canonical() {
    assert_eq!(DocState::from_str_flexible("draft"), Some(DocState::Draft));
    assert_eq!(DocState::from_str_flexible("under review"), Some(DocState::UnderReview));
    assert_eq!(DocState::from_str_flexible("revised"), Some(DocState::Revised));
    assert_eq!(DocState::from_str_flexible("accepted"), Some(DocState::Accepted));
    assert_eq!(DocState::from_str_flexible("active"), Some(DocState::Active));
    assert_eq!(DocState::from_str_flexible("final"), Some(DocState::Final));
    assert_eq!(DocState::from_str_flexible("deferred"), Some(DocState::Deferred));
    assert_eq!(DocState::from_str_flexible("rejected"), Some(DocState::Rejected));
    assert_eq!(DocState::from_str_flexible("withdrawn"), Some(DocState::Withdrawn));
    assert_eq!(DocState::from_str_flexible("superseded"), Some(DocState::Superseded));
}

#[test]
fn test_from_str_flexible_case_insensitive() {
    assert_eq!(DocState::from_str_flexible("DRAFT"), Some(DocState::Draft));
    assert_eq!(DocState::from_str_flexible("Draft"), Some(DocState::Draft));
    assert_eq!(DocState::from_str_flexible("DRaFT"), Some(DocState::Draft));
    assert_eq!(DocState::from_str_flexible("UNDER REVIEW"), Some(DocState::UnderReview));
}

#[test]
fn test_from_str_flexible_aliases() {
    assert_eq!(DocState::from_str_flexible("review"), Some(DocState::UnderReview));
    assert_eq!(DocState::from_str_flexible("underreview"), Some(DocState::UnderReview));
}

#[test]
fn test_from_str_flexible_with_hyphens() {
    assert_eq!(DocState::from_str_flexible("under-review"), Some(DocState::UnderReview));
    assert_eq!(DocState::from_str_flexible("under_review"), Some(DocState::UnderReview));
}

#[test]
fn test_from_str_flexible_whitespace() {
    assert_eq!(DocState::from_str_flexible("  draft  "), Some(DocState::Draft));
    assert_eq!(DocState::from_str_flexible("  under review  "), Some(DocState::UnderReview));
}

#[test]
fn test_from_str_flexible_invalid() {
    assert_eq!(DocState::from_str_flexible("invalid"), None);
    assert_eq!(DocState::from_str_flexible(""), None);
    assert_eq!(DocState::from_str_flexible("pending"), None);
}

#[test]
fn test_from_directory_canonical() {
    assert_eq!(DocState::from_directory("01-draft"), Some(DocState::Draft));
    assert_eq!(DocState::from_directory("02-under-review"), Some(DocState::UnderReview));
    assert_eq!(DocState::from_directory("03-revised"), Some(DocState::Revised));
    assert_eq!(DocState::from_directory("04-accepted"), Some(DocState::Accepted));
    assert_eq!(DocState::from_directory("05-active"), Some(DocState::Active));
    assert_eq!(DocState::from_directory("06-final"), Some(DocState::Final));
    assert_eq!(DocState::from_directory("07-deferred"), Some(DocState::Deferred));
    assert_eq!(DocState::from_directory("08-rejected"), Some(DocState::Rejected));
    assert_eq!(DocState::from_directory("09-withdrawn"), Some(DocState::Withdrawn));
    assert_eq!(DocState::from_directory("10-superseded"), Some(DocState::Superseded));
}

#[test]
fn test_from_directory_legacy() {
    // Legacy directory names
    assert_eq!(DocState::from_directory("01-drafts"), Some(DocState::Draft));
    assert_eq!(DocState::from_directory("03-final"), Some(DocState::Final));
    assert_eq!(DocState::from_directory("04-superseded"), Some(DocState::Superseded));
}

#[test]
fn test_from_directory_invalid() {
    assert_eq!(DocState::from_directory("invalid"), None);
    assert_eq!(DocState::from_directory("11-unknown"), None);
    assert_eq!(DocState::from_directory("draft"), None);
}

#[test]
fn test_all_states_count() {
    let states = DocState::all_states();
    assert_eq!(states.len(), 10);
}

#[test]
fn test_all_states_complete() {
    let states = DocState::all_states();
    assert!(states.contains(&DocState::Draft));
    assert!(states.contains(&DocState::UnderReview));
    assert!(states.contains(&DocState::Revised));
    assert!(states.contains(&DocState::Accepted));
    assert!(states.contains(&DocState::Active));
    assert!(states.contains(&DocState::Final));
    assert!(states.contains(&DocState::Deferred));
    assert!(states.contains(&DocState::Rejected));
    assert!(states.contains(&DocState::Withdrawn));
    assert!(states.contains(&DocState::Superseded));
}

#[test]
fn test_all_state_names() {
    let names = DocState::all_state_names();
    assert_eq!(names.len(), 10);
    assert!(names.contains(&"Draft"));
    assert!(names.contains(&"Under Review"));
    assert!(names.contains(&"Final"));
}

#[test]
fn test_state_equality() {
    assert_eq!(DocState::Draft, DocState::Draft);
    assert_ne!(DocState::Draft, DocState::Final);
}

#[test]
fn test_state_round_trip() {
    for state in DocState::all_states() {
        // as_str -> from_str_flexible
        let str_repr = state.as_str();
        assert_eq!(DocState::from_str_flexible(str_repr), Some(state));

        // directory -> from_directory
        let dir_repr = state.directory();
        assert_eq!(DocState::from_directory(dir_repr), Some(state));
    }
}
