use vmbid::errors::VmbidError;
use vmbid::handlers::{handle_allocation, handle_buy, handle_sell};
use vmbid::models::Bid;
use vmbid::state::AppState;

fn bid(username: &str, price: u64, volume: u64, seq: u64) -> Bid {
    Bid { username: username.to_string(), volume, price, seq }
}

#[test]
fn test_buy_with_no_supply_creates_bid() {
    let mut state = AppState::default();

    let result = handle_buy(&mut state, "u1".to_string(), 3, 100);
    assert!(result.is_ok());

    let expected = bid("u1", 3, 100, 0);
    assert_eq!(state.inner().bid_at(0), Some(&expected));
    assert_eq!(state.inner().bid_at(1), None);
}

#[test]
fn test_buy_with_supply_immediate_allocation() {
    let mut state = AppState::default();
    // Set initial supply
    handle_sell(&mut state, 150);

    let result = handle_buy(&mut state, "u1".to_string(), 3, 100);
    assert!(result.is_ok());

    // Supply is updated. No bids.
    assert_eq!(state.inner().bid_at(0), None);
    assert_eq!(state.inner().supply(), 50);

    // Allocation is created
    assert_eq!(state.inner().user_count(), 1);
    assert_eq!(state.inner().allocation(&"u1".to_string()), Some(100));
}

#[test]
fn test_buy_with_partial_supply() {
    let mut state = AppState::default();
    // Set initial supply
    handle_sell(&mut state, 50);

    let result = handle_buy(&mut state, "u1".to_string(), 4, 200);
    assert!(result.is_ok());

    // Both an allocation and a bid are created; the supply is emptied.
    let expected = bid("u1", 4, 150, 0);
    assert_eq!(state.inner().bid_at(0), Some(&expected));
    assert_eq!(state.inner().bid_at(1), None);
    assert_eq!(state.inner().supply(), 0);

    assert_eq!(state.inner().user_count(), 1);
    assert_eq!(state.inner().allocation(&"u1".to_string()), Some(50));
}

#[test]
fn test_buy_with_0_volume() {
    let mut state = AppState::default();

    let result = handle_buy(&mut state, "u1".to_string(), 3, 0);
    assert!(result.is_ok());
}

#[test]
#[should_panic(expected = "username cannot be empty")]
fn test_buy_with_empty_username() {
    let mut state = AppState::default();

    handle_buy(&mut state, "".to_string(), 3, 100).expect("username cannot be empty");
}

#[test]
fn test_concurrent_buys_fifo_ordering() {
    let mut state = AppState::default();

    handle_buy(&mut state, "u1".to_string(), 5, 100).unwrap();
    handle_buy(&mut state, "u2".to_string(), 5, 50).unwrap();

    // One queue at price 5, in increasing sequence.
    let first = state.inner().bid_at(0).unwrap();
    let second = state.inner().bid_at(1).unwrap();
    assert_eq!(state.inner().bid_at(2), None);
    assert_eq!((first.price, second.price), (5, 5));
    assert_eq!(first.seq, 0);
    assert_eq!(second.seq, 1);
}

#[test]
fn buy_reports_allocated_and_queued() {
    let mut state = AppState::default();
    assert_eq!(handle_buy(&mut state, "alice".to_string(), 3, 100), Ok((0, 100)));

    let mut state = AppState::default();
    handle_sell(&mut state, 150);
    assert_eq!(handle_buy(&mut state, "alice".to_string(), 3, 100), Ok((100, 0)));

    let mut state = AppState::default();
    handle_sell(&mut state, 50);
    assert_eq!(handle_buy(&mut state, "alice".to_string(), 4, 200), Ok((50, 150)));
    assert_eq!(state.inner().bid_at(0), Some(&bid("alice", 4, 150, 0)));
}

#[test]
fn blank_username_is_refused_and_changes_nothing() {
    let mut state = AppState::default();
    handle_sell(&mut state, 30);
    let before = state.total_volume_in_the_system();

    assert_eq!(handle_buy(&mut state, "".to_string(), 3, 10), Err(VmbidError::MissingUsername));
    assert_eq!(handle_buy(&mut state, "   ".to_string(), 3, 10), Err(VmbidError::MissingUsername));
    assert_eq!(
        handle_buy(&mut state, "\t\u{3000}\n".to_string(), 3, 10),
        Err(VmbidError::MissingUsername)
    );
    assert_eq!(state.total_volume_in_the_system(), before);
    assert_eq!(state.inner().supply(), 30);
    assert_eq!(state.inner().user_count(), 0);
    assert_eq!(state.inner().next_seq(), 0);
}

#[test]
fn username_with_spaces_inside_is_accepted() {
    let mut state = AppState::default();
    assert_eq!(handle_buy(&mut state, " a b ".to_string(), 3, 10), Ok((0, 10)));
    assert_eq!(state.inner().bid_at(0), Some(&bid(" a b ", 3, 10, 0)));
}

#[test]
fn buy_of_zero_changes_nothing() {
    let mut state = AppState::default();
    handle_sell(&mut state, 20);
    handle_buy(&mut state, "u1".to_string(), 7, 50).unwrap();

    assert_eq!(handle_buy(&mut state, "u2".to_string(), 9, 0), Ok((0, 0)));
    assert_eq!(state.inner().supply(), 0);
    assert_eq!(state.inner().bid_at(0), Some(&bid("u1", 7, 30, 0)));
    assert_eq!(state.inner().bid_at(1), None);
    assert_eq!(state.inner().user_count(), 1);
    assert_eq!(state.inner().next_seq(), 1);
    assert_eq!(handle_allocation(&state, Some("u2")), Err(VmbidError::NotFound("u2".to_string())));
}
