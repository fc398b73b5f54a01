use vmbid::handlers::{handle_allocation, handle_buy, handle_sell};
use vmbid::state::AppState;

#[test]
fn test_concurrent_buys_maintain_fifo() {
    let mut state = AppState::default();

    for i in 0..100u64 {
        // Same price: tests FIFO
        handle_buy(&mut state, format!("user{}", i), 5, 10).unwrap();
    }

    // All bids created, sequence numbers are unique and in order
    let mut seq_numbers: Vec<u64> = Vec::new();
    let mut i = 0;
    while let Some(bid) = state.inner().bid_at(i) {
        assert_eq!(bid.price, 5);
        seq_numbers.push(bid.seq);
        i += 1;
    }
    assert_eq!(seq_numbers.len(), 100, "All bids should be created");

    for (i, &seq) in seq_numbers.iter().enumerate() {
        assert_eq!(seq, i as u64, "Seq numbers should be 0..99");
    }
}

#[test]
fn test_concurrent_buy_and_sell_conservation() {
    let mut state = AppState::default();

    let mut total_bought = 0;
    let mut total_sold = 0;
    for i in 0..100u64 {
        handle_buy(&mut state, format!("user{}", i), i % 10, 50 * (i % 10)).unwrap();
        total_bought += 50 * (i % 10);

        handle_sell(&mut state, 350);
        total_sold += 350;
    }

    let (sold_in_system, bought_in_system) = state.total_volume_in_the_system();

    // total bought == bids + allocations
    assert_eq!(
        bought_in_system, total_bought,
        "Volume not conserved! Bought in the system: {}, Total bought: {})",
        bought_in_system, total_bought
    );

    // total sold == current supply + allocations
    assert_eq!(
        sold_in_system, total_sold,
        "Volume not conserved! Sold in the system: {}, Total sold: {}",
        sold_in_system, total_sold
    );
}

#[test]
fn test_concurrent_allocations_never_decrease() {
    let mut state = AppState::default();
    let mut history: Vec<Vec<u64>> = vec![Vec::new(); 3];

    for i in 0..100u64 {
        let username = format!("user{}", i % 3);
        handle_buy(&mut state, username, i % 10, 50 * (i % 10)).unwrap();
        handle_sell(&mut state, 250);

        for (u, seen) in history.iter_mut().enumerate() {
            if let Ok(allocation) = handle_allocation(&state, Some(&format!("user{}", u))) {
                seen.push(allocation);
            }
        }
    }

    for (user, allocations) in history.iter().enumerate() {
        for window in allocations.windows(2) {
            assert!(
                window[1] >= window[0],
                "Allocation decreased for user{}: {} -> {}",
                user,
                window[0],
                window[1]
            );
        }
    }
}

struct Lcg(u64);

impl Lcg {
    fn next(&mut self, bound: u64) -> u64 {
        self.0 = self.0.wrapping_mul(6364136223846793005).wrapping_add(1442695040888963407);
        (self.0 >> 33) % bound
    }
}

#[test]
fn totals_match_what_came_in_over_mixed_runs() {
    for seed in 1..40u64 {
        let mut rng = Lcg(seed);
        let mut state = AppState::default();
        let mut total_bought = 0u64;
        let mut total_sold = 0u64;
        let names = ["", "u1", "u2", " ", "u3"];
        for _ in 0..60 {
            if rng.next(2) == 0 {
                let volume = rng.next(250);
                handle_sell(&mut state, volume);
                total_sold += volume;
            } else {
                let name = names[rng.next(5) as usize].to_string();
                let price = rng.next(20);
                let volume = rng.next(250);
                if handle_buy(&mut state, name, price, volume).is_ok() {
                    total_bought += volume;
                }
            }
            assert_eq!(state.total_volume_in_the_system(), (total_sold, total_bought));
        }
    }
}

#[test]
fn allocations_never_decrease_over_mixed_runs() {
    for seed in 1..40u64 {
        let mut rng = Lcg(seed);
        let mut state = AppState::default();
        let mut previous = [0u64; 3];
        for _ in 0..60 {
            if rng.next(2) == 0 {
                handle_sell(&mut state, 50 * (1 + rng.next(5)));
            } else {
                let user = format!("u{}", rng.next(3));
                handle_buy(&mut state, user, 1 + rng.next(9), 50 * (1 + rng.next(5))).unwrap();
            }
            for u in 0..3 {
                let now = handle_allocation(&state, Some(&format!("u{}", u))).unwrap_or(0);
                assert!(now >= previous[u]);
                previous[u] = now;
            }
        }
    }
}

#[test]
fn snapshot_of_a_fresh_state_is_zero() {
    let state = AppState::default();
    assert_eq!(state.total_volume_in_the_system(), (0, 0));
}

#[test]
fn snapshot_counts_supply_allocations_and_bids() {
    let mut state = AppState::default();
    handle_sell(&mut state, 70);
    handle_buy(&mut state, "a".to_string(), 2, 100).unwrap();
    handle_buy(&mut state, "b".to_string(), 4, 25).unwrap();
    // supply 0, allocations 70, open bids 30 + 25
    assert_eq!(state.total_volume_in_the_system(), (70, 125));
    handle_sell(&mut state, 40);
    // b is filled (25), a takes 15: allocations 110, bids 15, supply 0
    assert_eq!(state.total_volume_in_the_system(), (110, 125));
    assert_eq!(state.inner().supply(), 0);
}
