use vmbid::handlers::{handle_allocation, handle_buy, handle_sell};
use vmbid::models::Bid;
use vmbid::state::AppState;

#[test]
fn test_sell_when_no_bids_creates_supply() {
    let mut state = AppState::default();

    handle_sell(&mut state, 100);

    assert_eq!(state.inner().supply(), 100);
}

#[test]
fn test_sell_with_excess_volume() {
    let mut state = AppState::default();

    // Populate the book with one bid
    handle_buy(&mut state, "u1".to_string(), 5, 100).unwrap();
    assert_eq!(
        state.inner().bid_at(0),
        Some(&Bid { username: "u1".to_string(), volume: 100, price: 5, seq: 0 })
    );

    assert_eq!(handle_sell(&mut state, 200), 100);

    assert_eq!(state.inner().supply(), 100);
    assert_eq!(state.inner().bid_at(0), None);
    assert_eq!(handle_allocation(&state, Some("u1")), Ok(100));
}

#[test]
fn sell_with_no_bids_allocates_nothing() {
    let mut state = AppState::default();
    assert_eq!(handle_sell(&mut state, 100), 0);
    assert_eq!(state.inner().user_count(), 0);
}

#[test]
fn sell_fills_oldest_first_within_a_price() {
    let mut state = AppState::default();
    handle_buy(&mut state, "user1".to_string(), 5, 100).unwrap();
    handle_buy(&mut state, "user2".to_string(), 5, 50).unwrap();

    assert_eq!(handle_sell(&mut state, 120), 120);

    assert_eq!(handle_allocation(&state, Some("user1")), Ok(100));
    assert_eq!(handle_allocation(&state, Some("user2")), Ok(20));
    assert_eq!(
        state.inner().bid_at(0),
        Some(&Bid { username: "user2".to_string(), volume: 30, price: 5, seq: 1 })
    );
    assert_eq!(state.inner().bid_at(1), None);
    assert_eq!(state.inner().supply(), 0);
}

#[test]
fn sell_fills_higher_prices_first() {
    let mut state = AppState::default();
    handle_buy(&mut state, "low".to_string(), 3, 40).unwrap();
    handle_buy(&mut state, "high".to_string(), 8, 40).unwrap();
    handle_buy(&mut state, "mid".to_string(), 5, 40).unwrap();

    assert_eq!(state.inner().bid_at(0).unwrap().price, 8);
    assert_eq!(state.inner().bid_at(1).unwrap().price, 5);
    assert_eq!(state.inner().bid_at(2).unwrap().price, 3);

    assert_eq!(handle_sell(&mut state, 60), 60);
    assert_eq!(handle_allocation(&state, Some("high")), Ok(40));
    assert_eq!(handle_allocation(&state, Some("mid")), Ok(20));
    assert_eq!(handle_allocation(&state, Some("low")).is_err(), true);
    assert_eq!(
        state.inner().bid_at(0),
        Some(&Bid { username: "mid".to_string(), volume: 20, price: 5, seq: 2 })
    );
    assert_eq!(
        state.inner().bid_at(1),
        Some(&Bid { username: "low".to_string(), volume: 40, price: 3, seq: 0 })
    );
}

#[test]
fn sell_of_zero_changes_nothing() {
    let mut state = AppState::default();
    handle_buy(&mut state, "u1".to_string(), 5, 10).unwrap();
    let before = state.total_volume_in_the_system();

    assert_eq!(handle_sell(&mut state, 0), 0);
    assert_eq!(state.total_volume_in_the_system(), before);
    assert_eq!(state.inner().supply(), 0);
    assert_eq!(state.inner().user_count(), 0);
    assert_eq!(
        state.inner().bid_at(0),
        Some(&Bid { username: "u1".to_string(), volume: 10, price: 5, seq: 0 })
    );
}

#[test]
fn sell_adds_to_a_prior_allocation() {
    let mut state = AppState::default();
    handle_sell(&mut state, 10);
    handle_buy(&mut state, "u1".to_string(), 5, 110).unwrap();
    assert_eq!(handle_allocation(&state, Some("u1")), Ok(10));

    assert_eq!(handle_sell(&mut state, 200), 100);
    assert_eq!(handle_allocation(&state, Some("u1")), Ok(110));
    assert_eq!(state.inner().supply(), 100);
    assert_eq!(state.inner().user_count(), 1);
}
