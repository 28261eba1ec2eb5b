use ducat::address::Address;
use ducat::field::FieldElement;
use ducat::text::{decimal_string, hex_string};

#[test]
fn public_key_is_sha256_hex_of_secret() {
    let a = Address::new("abc".to_string());
    assert_eq!(
        a.public_key(),
        "ba7816bf8f01cfea414140de5dae2223b00361a396177a9cb410ff61f20015ad"
    );
    assert_eq!(a.secret_key(), "abc");
}

#[test]
fn public_key_of_empty_secret() {
    let a = Address::new(String::new());
    assert_eq!(
        a.public_key(),
        "e3b0c44298fc1c149afbf4c8996fb92427ae41e4649b934ca495991b7852b855"
    );
}

#[test]
fn derivation_is_deterministic_and_separates_secrets() {
    let a = Address::new("secret-1".to_string());
    let b = Address::new("secret-1".to_string());
    let c = Address::new("secret-2".to_string());
    assert_eq!(a.public_key(), b.public_key());
    assert_ne!(a.public_key(), c.public_key());
    assert_ne!(a.public_key(), a.secret_key());
    assert_eq!(a.public_key().len(), 64);
}

#[test]
fn hex_text_of_bytes() {
    assert_eq!(hex_string(&vec![0, 9, 10, 255, 16]), "00090aff10");
    assert_eq!(hex_string(&vec![]), "");
}

#[test]
fn decimal_text_of_integers() {
    assert_eq!(decimal_string(0), "0");
    assert_eq!(decimal_string(7), "7");
    assert_eq!(decimal_string(1203), "1203");
    assert_eq!(decimal_string(usize::MAX), usize::MAX.to_string());
}

#[test]
fn field_element_equality() {
    let a = FieldElement::from_limbs(vec![1, 2, 3, 4]);
    assert!(a.is_eq(&FieldElement::from_limbs(vec![1, 2, 3, 4])));
    assert!(!a.is_eq(&FieldElement::from_limbs(vec![1, 2, 3, 5])));
    assert!(!a.is_eq(&FieldElement::from_limbs(vec![1, 2, 3])));
    assert_eq!(a.limbs(), &vec![1, 2, 3, 4]);
}
