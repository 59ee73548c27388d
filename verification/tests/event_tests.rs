use cdr_ingest::events::FileChangeKind;
use cdr_ingest::events::is_relevant_event;
use cdr_ingest::events::should_process;

#[test]
fn creation_and_rename_into_are_relevant() {
    assert!(is_relevant_event(&FileChangeKind::Creation));
    assert!(is_relevant_event(&FileChangeKind::RenameInto));
}

#[test]
fn other_kinds_are_not_relevant() {
    assert!(!is_relevant_event(&FileChangeKind::ContentModification));
    assert!(!is_relevant_event(&FileChangeKind::Deletion));
    assert!(!is_relevant_event(&FileChangeKind::RenameFrom));
    assert!(!is_relevant_event(&FileChangeKind::Other));
}

#[test]
fn processing_needs_relevance_and_a_regular_file() {
    assert!(should_process(&FileChangeKind::Creation, true));
    assert!(should_process(&FileChangeKind::RenameInto, true));
    assert!(!should_process(&FileChangeKind::Creation, false));
    assert!(!should_process(&FileChangeKind::RenameInto, false));
    assert!(!should_process(&FileChangeKind::Deletion, true));
    assert!(!should_process(&FileChangeKind::ContentModification, true));
    assert!(!should_process(&FileChangeKind::RenameFrom, true));
    assert!(!should_process(&FileChangeKind::Other, true));
}
