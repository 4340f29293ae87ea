use voting_escrow::error::ContractError;
use voting_escrow::guard::{blacklist_check, xastro_token_check};
use voting_escrow::keys::{decode_period, deserialize_pair};
use voting_escrow::decimal::Decimal;

#[test]
fn only_the_deposit_token_is_authorized() {
    let token = String::from("xastro");
    assert!(xastro_token_check(&token, &String::from("xastro")).is_ok());
    assert!(matches!(
        xastro_token_check(&token, &String::from("someone")),
        Err(ContractError::Unauthorized {})
    ));
}

#[test]
fn blacklisted_address_is_refused() {
    let list = vec![String::from("alice"), String::from("bob")];
    match blacklist_check(&list, &String::from("bob")) {
        Err(ContractError::AddressBlacklisted(a)) => assert_eq!(a, "bob"),
        _ => panic!("expected a blacklist error"),
    }
    assert!(blacklist_check(&list, &String::from("carol")).is_ok());
    assert!(blacklist_check(&vec![], &String::from("bob")).is_ok());
}

#[test]
fn period_keys_are_big_endian() {
    assert_eq!(decode_period(&vec![0, 0, 0, 0, 0, 0, 1, 0]), Some(256));
    assert_eq!(decode_period(&vec![1, 0, 0, 0, 0, 0, 0, 2]), Some((1u64 << 56) + 2));
    assert_eq!(decode_period(&vec![255; 8]), Some(u64::MAX));
    assert_eq!(decode_period(&vec![0; 7]), None);
    assert_eq!(decode_period(&vec![0; 9]), None);
}

#[test]
fn period_key_order_is_numeric_order() {
    let a = 255u64.to_be_bytes().to_vec();
    let b = 256u64.to_be_bytes().to_vec();
    assert!(a < b);
    assert!(decode_period(&a).unwrap() < decode_period(&b).unwrap());
}

#[test]
fn pair_with_short_key_is_an_error() {
    let d = Decimal { atomics: 7 };
    assert_eq!(deserialize_pair(Ok((vec![0, 0, 0, 0, 0, 0, 0, 3], d))).unwrap(), (3, d));
    assert!(deserialize_pair(Ok((vec![3], d))).is_err());
    let e = cosmwasm_std::StdError::generic_err("storage");
    assert!(deserialize_pair(Err(e)).is_err());
}
