use checkers::text::{format_commit_header, format_decimal};
use checkers::ui::{CreationModal, ModalType, State};

#[test]
fn decimal_of_zero() {
    assert_eq!(format_decimal(0), "0".to_string());
}

#[test]
fn decimal_of_single_digit() {
    assert_eq!(format_decimal(7), "7".to_string());
}

#[test]
fn decimal_of_round_number() {
    assert_eq!(format_decimal(10), "10".to_string());
}

#[test]
fn decimal_of_larger_numbers() {
    assert_eq!(format_decimal(123), "123".to_string());
    assert_eq!(format_decimal(90210), "90210".to_string());
    assert_eq!(format_decimal(1000), "1000".to_string());
}

#[test]
fn commit_header_format() {
    assert_eq!(format_commit_header(5, &"fix".to_string()), "5-fix".to_string());
    assert_eq!(format_commit_header(0, &"".to_string()), "0-".to_string());
    // a dash in the message stays after the first separator
    assert_eq!(
        format_commit_header(12, &"a-b".to_string()),
        "12-a-b".to_string()
    );
}

#[test]
fn creation_modal_starts_empty() {
    let modal = CreationModal::new(ModalType::BranchCreation);
    assert_eq!(modal.input_value, "".to_string());
    assert_eq!(modal.modal_type, ModalType::BranchCreation);
}

#[test]
fn creation_modal_clear_keeps_kind() {
    let mut modal = CreationModal::new(ModalType::CommitCreation);
    modal.input_value = "a message".to_string();
    modal.clear();
    assert_eq!(modal.input_value, "".to_string());
    assert_eq!(modal.modal_type, ModalType::CommitCreation);
}

#[test]
fn selection_state_defaults_to_idle() {
    let state = State::default();
    assert!(matches!(state, State::Idle));
}

#[test]
fn decimal_of_the_largest_id() {
    assert_eq!(format_decimal(isize::MAX), isize::MAX.to_string());
}
