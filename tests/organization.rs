use ducat::field::FieldElement;
use ducat::org::{Organization, OrganizationError, Transaction};

fn fe(v: u64) -> FieldElement {
    FieldElement::from_limbs(vec![v, 0, 0, 0])
}

fn org_with(keys: &[&str], balance: i32) -> Organization {
    let keys: Vec<String> = keys.iter().map(|k| k.to_string()).collect();
    Organization::new("org".to_string(), balance, keys).unwrap()
}

#[test]
fn scenario_epoch_and_serial_numbers() {
    let mut org = org_with(&["A"], 100);
    let t = Transaction::new("A".to_string(), "B".to_string());
    assert!(org.is_involved(&t));
    let k1 = fe(17);
    assert_eq!(org.add_serial_number(k1), Ok(()));
    org.update_delta(-10);
    assert_eq!(org.delta(), -10);
    org.close_epoch(-10);
    assert_eq!(org.final_balance(), 90);
    assert_eq!(org.delta(), 0);
    assert_eq!(org.initial_balance(), 100);
    assert!(org.validate_transaction_serial_numbers(vec![fe(17)]));
    assert!(!org.validate_transaction_serial_numbers(vec![]));
}

#[test]
fn registering_twice_is_refused() {
    let mut org = org_with(&[], 0);
    assert_eq!(org.add_address_public_key("X".to_string()), Ok(()));
    assert_eq!(
        org.add_address_public_key("X".to_string()),
        Err(OrganizationError::DuplicateCommitment)
    );
    assert_eq!(org.known_public_keys(), &vec!["X".to_string()]);
}

#[test]
fn new_refuses_duplicate_identities() {
    let keys = vec!["A".to_string(), "B".to_string(), "A".to_string()];
    let r = Organization::new("org".to_string(), 5, keys);
    assert!(matches!(r, Err(OrganizationError::DuplicateCommitment)));
}

#[test]
fn new_keeps_fields() {
    let org = org_with(&["A", "B"], -3);
    assert_eq!(org.identifier(), "org");
    assert_eq!(org.initial_balance(), -3);
    assert_eq!(org.final_balance(), -3);
    assert_eq!(org.delta(), 0);
    assert_eq!(org.known_public_keys(), &vec!["A".to_string(), "B".to_string()]);
    assert!(org.serial_numbers().is_empty());
    assert!(org.roots().is_empty());
}

#[test]
fn new_with_no_identities() {
    let org = org_with(&[], 0);
    assert!(org.known_public_keys().is_empty());
    assert!(!org.has_address("A".to_string()));
}

#[test]
fn double_spend_is_refused() {
    let mut org = org_with(&["A"], 0);
    assert_eq!(org.add_serial_number(fe(3)), Ok(()));
    assert_eq!(org.add_serial_number(fe(3)), Err(OrganizationError::DuplicateCommitment));
    assert_eq!(org.add_serial_number(fe(4)), Ok(()));
    assert_eq!(org.serial_numbers().len(), 2);
}

#[test]
fn serial_numbers_must_all_be_on_ledger() {
    let mut org = org_with(&["A"], 0);
    org.add_serial_number(fe(1)).unwrap();
    org.add_serial_number(fe(2)).unwrap();
    assert!(org.validate_transaction_serial_numbers(vec![fe(9), fe(2), fe(1)]));
    // removing an element that was relied upon flips the result
    assert!(!org.validate_transaction_serial_numbers(vec![fe(9), fe(1)]));
    // equality is over the whole field element
    assert!(!org.validate_transaction_serial_numbers(vec![
        FieldElement::from_limbs(vec![1, 0, 0, 1]),
        fe(2)
    ]));
}

#[test]
fn empty_cache_validates_against_any_ledger() {
    let org = org_with(&["A"], 0);
    assert!(org.validate_transaction_serial_numbers(vec![]));
    assert!(org.validate_transaction_roots(vec![]));
}

#[test]
fn roots_must_all_be_on_ledger() {
    let mut org = org_with(&["A"], 0);
    org.add_root(fe(7));
    org.add_root(fe(7));
    org.add_root(fe(8));
    assert_eq!(org.roots().len(), 3);
    assert!(org.validate_transaction_roots(vec![fe(8), fe(7)]));
    assert!(!org.validate_transaction_roots(vec![fe(8)]));
    assert!(!org.validate_transaction_roots(vec![]));
}

#[test]
fn involvement_by_sender_or_receiver() {
    let org = org_with(&["A", "C"], 0);
    assert!(org.is_involved(&Transaction::new("A".to_string(), "B".to_string())));
    assert!(org.is_involved(&Transaction::new("B".to_string(), "C".to_string())));
    assert!(!org.is_involved(&Transaction::new("B".to_string(), "D".to_string())));
}

#[test]
fn involvement_ignores_registration_order() {
    let first = org_with(&["A", "B", "C"], 0);
    let second = org_with(&["C", "A", "B"], 0);
    for (s, r) in [("A", "X"), ("X", "B"), ("X", "Y"), ("C", "C")] {
        let t = Transaction::new(s.to_string(), r.to_string());
        assert_eq!(first.is_involved(&t), second.is_involved(&t));
    }
}

#[test]
fn transaction_identities() {
    let t = Transaction::new("S".to_string(), "R".to_string());
    assert_eq!(t.sender_identity(), "S");
    assert_eq!(t.receiver_identity(), "R");
}

#[test]
fn epoch_deltas_accumulate_then_close() {
    let mut org = org_with(&["A"], 50);
    for d in [5, -20, 7] {
        org.update_delta(d);
    }
    assert_eq!(org.delta(), -8);
    assert_eq!(org.final_balance(), 50);
    let pending = org.delta();
    org.close_epoch(pending);
    assert_eq!(org.final_balance(), 42);
    assert_eq!(org.delta(), 0);
}

#[test]
fn update_balance_and_clear_delta() {
    let mut org = org_with(&["A"], 10);
    org.update_delta(4);
    org.update_balance(4);
    assert_eq!(org.final_balance(), 14);
    assert_eq!(org.delta(), 4);
    org.clear_delta();
    assert_eq!(org.delta(), 0);
    assert_eq!(org.final_balance(), 14);
}

#[test]
fn known_addresses_are_offset_decimals() {
    assert_eq!(
        Organization::create_known_addresses(3, 8),
        vec!["8".to_string(), "9".to_string(), "10".to_string()]
    );
    assert_eq!(Organization::create_known_addresses(1, 0), vec!["0".to_string()]);
    assert!(Organization::create_known_addresses(0, 4).is_empty());
}

#[test]
fn known_addresses_make_an_organization() {
    let keys = Organization::create_known_addresses(4, 100);
    let org = Organization::new("bank".to_string(), 0, keys).unwrap();
    assert!(org.has_address("103".to_string()));
    assert!(!org.has_address("104".to_string()));
}

#[test]
fn known_addresses_reach_the_largest_offset() {
    assert_eq!(
        Organization::create_known_addresses(1, usize::MAX),
        vec![usize::MAX.to_string()]
    );
    assert_eq!(
        Organization::create_known_addresses(2, usize::MAX - 1),
        vec![(usize::MAX - 1).to_string(), usize::MAX.to_string()]
    );
}

#[test]
fn balance_over_several_epochs() {
    let mut org = org_with(&["A"], 100);
    let epochs: [&[i32]; 3] = [&[5, -2], &[], &[-30, 4, 1]];
    for changes in epochs {
        for d in changes {
            org.update_delta(*d);
        }
        let sum: i32 = changes.iter().sum();
        org.update_balance(sum);
        org.clear_delta();
        assert_eq!(org.delta(), 0);
    }
    assert_eq!(org.final_balance(), 78);
    assert_eq!(org.initial_balance(), 100);
}
