use iota_wallet::account::sync::dust::{is_dust_allowed, respects_dust_rule};
use iota_wallet::address::OutputKind;
use iota_wallet::error::Error;

#[test]
fn dust_without_allowance_is_refused() {
    let current = vec![(10_000_000, OutputKind::SignatureLockedSingle)];
    match is_dust_allowed("A".to_string(), &current, vec![(500, true)]) {
        Err(Error::DustError(address)) => assert_eq!(address, "A"),
        other => panic!("unexpected result {:?}", other),
    }
}

#[test]
fn allowance_permits_one_dust_output_per_hundred_thousand() {
    let current = vec![(1_000_000, OutputKind::SignatureLockedDustAllowance)];
    let mut changes = Vec::new();
    for _ in 0..10 {
        changes.push((1u64, true));
        assert!(respects_dust_rule(&current, &changes));
    }
    changes.push((1, true));
    assert!(!respects_dust_rule(&current, &changes));
}

#[test]
fn dust_limit_is_exact_at_the_boundary() {
    let mut current = vec![(299_999, OutputKind::SignatureLockedDustAllowance)];
    current.push((5, OutputKind::SignatureLockedSingle));
    assert!(respects_dust_rule(&current, &vec![(7, true)]));
    current.push((6, OutputKind::SignatureLockedSingle));
    assert!(!respects_dust_rule(&current, &vec![(7, true)]));
}

#[test]
fn dust_outputs_never_exceed_a_hundred() {
    let current = vec![(1_000_000_000, OutputKind::SignatureLockedDustAllowance)];
    let mut changes = Vec::new();
    for _ in 0..100 {
        changes.push((999_999u64, true));
    }
    assert!(respects_dust_rule(&current, &changes));
    changes.push((999_999, true));
    assert!(!respects_dust_rule(&current, &changes));
}

#[test]
fn created_allowance_counts_at_once() {
    let current = Vec::new();
    assert!(respects_dust_rule(&current, &vec![(1_000_000, true), (1, true)]));
    assert!(is_dust_allowed("x".to_string(), &current, vec![(1_000_000, true), (1, true)]).is_ok());
}

#[test]
fn adding_a_large_output_keeps_a_permitted_transaction_permitted() {
    let current = vec![(200_000, OutputKind::SignatureLockedDustAllowance)];
    let mut changes = vec![(3u64, true), (4, true)];
    assert!(respects_dust_rule(&current, &changes));
    changes.push((1_000_000, true));
    assert!(respects_dust_rule(&current, &changes));
}

#[test]
fn consuming_the_allowance_refuses_the_dust_that_stays() {
    let current = vec![
        (1_000_000, OutputKind::SignatureLockedDustAllowance),
        (10, OutputKind::SignatureLockedSingle),
    ];
    assert!(respects_dust_rule(&current, &Vec::new()));
    assert!(!respects_dust_rule(&current, &vec![(1_000_000, false)]));
    assert!(respects_dust_rule(&current, &vec![(1_000_000, false), (10, false)]));
}

#[test]
fn treasury_and_large_single_outputs_do_not_count() {
    let current = vec![(5, OutputKind::Treasury), (2_000_000, OutputKind::SignatureLockedSingle)];
    assert!(respects_dust_rule(&current, &Vec::new()));
    assert!(!respects_dust_rule(&current, &vec![(1, true)]));
}

#[test]
fn huge_amounts_do_not_overflow() {
    let current = vec![(u64::MAX, OutputKind::SignatureLockedDustAllowance); 3];
    let changes = vec![(u64::MAX, false), (u64::MAX, true), (5, true)];
    assert!(respects_dust_rule(&current, &changes));
}
