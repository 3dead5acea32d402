use iota_wallet::account::sync::input_selection::{select_input, Input};
use iota_wallet::error::Error;

fn input(address: &str, internal: bool, balance: u64, key_index: usize) -> Input {
    Input {
        address: address.to_string(),
        internal,
        balance,
        key_index,
    }
}

fn addresses(selected: &[Input]) -> Vec<String> {
    selected.iter().map(|i| i.address.clone()).collect()
}

#[test]
fn selection_prefers_exact_match() {
    let pool = vec![input("a", false, 50, 0), input("b", false, 30, 1), input("c", true, 100, 2)];
    let selected = select_input(30, pool).unwrap();
    assert_eq!(addresses(&selected), vec!["b".to_string()]);
}

#[test]
fn selection_takes_smallest_covering_input() {
    let pool = vec![input("a", false, 500, 0), input("b", true, 70, 1), input("c", false, 60, 2)];
    let selected = select_input(55, pool).unwrap();
    assert_eq!(addresses(&selected), vec!["c".to_string()]);
}

#[test]
fn selection_breaks_ties_by_key_index_then_change() {
    let pool = vec![input("a", false, 60, 3), input("b", false, 60, 1), input("c", true, 60, 1)];
    let selected = select_input(55, pool).unwrap();
    assert_eq!(addresses(&selected), vec!["c".to_string()]);
}

#[test]
fn selection_accumulates_change_first_by_descending_balance() {
    let pool = vec![
        input("p0", false, 40, 0),
        input("c0", true, 10, 0),
        input("p1", false, 45, 1),
        input("c1", true, 20, 1),
    ];
    let selected = select_input(70, pool).unwrap();
    assert_eq!(
        addresses(&selected),
        vec!["c1".to_string(), "c0".to_string(), "p1".to_string()]
    );
    let sum: u64 = selected.iter().map(|i| i.balance).sum();
    assert!(sum >= 70);
}

#[test]
fn selection_stops_at_first_coverage() {
    let pool = vec![input("c0", true, 10, 0), input("c1", true, 20, 1), input("p0", false, 25, 0)];
    let selected = select_input(30, pool).unwrap();
    assert_eq!(addresses(&selected), vec!["c1".to_string(), "c0".to_string()]);
}

#[test]
fn selection_fails_without_funds() {
    let pool = vec![input("a", false, 10, 0), input("b", true, 20, 1)];
    match select_input(31, pool) {
        Err(Error::InsufficientFunds) => {}
        other => panic!("unexpected result {:?}", other),
    }
}

#[test]
fn selection_of_everything_succeeds() {
    let pool = vec![input("a", false, 10, 0), input("b", true, 20, 1)];
    let selected = select_input(30, pool).unwrap();
    assert_eq!(selected.len(), 2);
}

#[test]
fn selection_does_not_overflow_on_large_balances() {
    let pool = vec![input("a", false, u64::MAX, 0), input("b", true, u64::MAX, 1)];
    let selected = select_input(u64::MAX, pool).unwrap();
    assert_eq!(addresses(&selected), vec!["a".to_string()]);
}
