use vmbid::errors::VmbidError;
use vmbid::handlers::{handle_allocation, handle_buy, handle_sell};
use vmbid::state::AppState;
use vmbid::username::is_blank;

#[test]
fn allocation_needs_a_username() {
    let state = AppState::default();
    assert_eq!(handle_allocation(&state, None), Err(VmbidError::MissingUsername));
    assert_eq!(handle_allocation(&state, Some("")), Err(VmbidError::MissingUsername));
    assert_eq!(handle_allocation(&state, Some(" \t ")), Err(VmbidError::MissingUsername));
}

#[test]
fn allocation_of_unknown_user_is_not_found() {
    let mut state = AppState::default();
    handle_sell(&mut state, 10);
    handle_buy(&mut state, "alice".to_string(), 1, 5).unwrap();
    assert_eq!(handle_allocation(&state, Some("alice")), Ok(5));
    assert_eq!(handle_allocation(&state, Some("bob")), Err(VmbidError::NotFound("bob".to_string())));
}

#[test]
fn blank_names() {
    assert!(is_blank(""));
    assert!(is_blank(" "));
    assert!(is_blank("\t\n\r\u{b}\u{c}\u{85}\u{a0}\u{2000}\u{3000}"));
    assert!(!is_blank("a"));
    assert!(!is_blank("  x  "));
    assert!(!is_blank("\u{200b}"));
}
