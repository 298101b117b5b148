use cosmwasm_nft::registry::Registry;
use cosmwasm_nft::registry::{is_valid_name, is_valid_symbol};
use cosmwasm_nft::types::{
    Addr, Error, ExecuteMsg, InstantiateMsg, Outcome, QueryAnswer, QueryMsg, TokenId,
};

fn addr(s: &str) -> Addr {
    Addr::new(s.as_bytes().to_vec())
}

fn new_registry() -> Registry {
    Registry::instantiate(InstantiateMsg { name: "Cats".to_string(), symbol: "CAT".to_string() })
        .expect("valid configuration")
}

#[test]
fn instantiate_keeps_the_configuration() {
    let reg = new_registry();
    assert_eq!(reg.state.name, "Cats");
    assert_eq!(reg.state.symbol, "CAT");
}

#[test]
fn instantiate_rejects_a_short_name() {
    let r = Registry::instantiate(InstantiateMsg {
        name: "ab".to_string(),
        symbol: "CAT".to_string(),
    });
    assert_eq!(r.err(), Some(Error::InvalidNameFormat));
}

#[test]
fn instantiate_rejects_a_long_symbol() {
    let r = Registry::instantiate(InstantiateMsg {
        name: "Cats".to_string(),
        symbol: "0123456789012345678901234567890".to_string(),
    });
    assert_eq!(r.err(), Some(Error::InvalidSymbolFormat));
}

#[test]
fn name_and_symbol_bounds_are_inclusive() {
    assert!(is_valid_name("abc").is_ok());
    assert!(is_valid_name("012345678901234567890123456789").is_ok());
    assert_eq!(is_valid_name("ab").err(), Some(Error::InvalidNameFormat));
    assert_eq!(
        is_valid_name("0123456789012345678901234567890").err(),
        Some(Error::InvalidNameFormat)
    );
    assert!(is_valid_symbol("abc").is_ok());
    assert_eq!(is_valid_symbol("ab").err(), Some(Error::InvalidSymbolFormat));
}

#[test]
fn sequential_allocation_across_owners() {
    let mut reg = new_registry();
    let alice = addr("alice");
    let bob = addr("bob");
    let carol = addr("carol");
    assert_eq!(reg.mint(&alice), TokenId(0));
    assert_eq!(reg.mint(&bob), TokenId(1));
    assert_eq!(reg.mint(&alice), TokenId(2));
    assert_eq!(reg.mint(&carol), TokenId(3));
    assert_eq!(reg.balance(&alice), 2);
    assert_eq!(reg.balance(&bob), 1);
    assert_eq!(reg.balance(&carol), 1);
}

#[test]
fn mint_then_transfer_scenario() {
    // Create "Cats"/"CAT"; two mints to Alice; transfer id 0 to Bob.
    let mut reg = new_registry();
    let alice = addr("alice");
    let bob = addr("bob");
    assert_eq!(reg.mint(&alice), TokenId(0));
    assert_eq!(reg.mint(&alice), TokenId(1));
    assert_eq!(reg.balance(&alice), 2);
    let outcome = reg.transfer(&alice, &bob, 0).expect("alice owns id 0");
    assert_eq!(
        outcome,
        Outcome::Transferred { sender: addr("alice"), recipient: addr("bob"), token_id: TokenId(0) }
    );
    assert_eq!(reg.balance(&alice), 1);
    assert_eq!(reg.balance(&bob), 1);
    assert_eq!(reg.owner_of(0), Some(addr("bob")));
    assert_eq!(reg.owner_of(1), Some(addr("alice")));
}

#[test]
fn transfer_from_without_approval_fails() {
    // Two mints to Alice; Bob tries transfer_from on id 1 with no
    // approval in place: AllowanceNotFound, ownership untouched.
    let mut reg = new_registry();
    let alice = addr("alice");
    let bob = addr("bob");
    reg.mint(&alice);
    reg.mint(&alice);
    let r = reg.transfer_from(&bob, &alice, &bob, 1);
    assert_eq!(r.err(), Some(Error::AllowanceNotFound));
    assert_eq!(reg.owner_of(1), Some(addr("alice")));
    assert_eq!(reg.balance(&alice), 2);
    assert_eq!(reg.balance(&bob), 0);
}

#[test]
fn transfer_from_with_approval_succeeds() {
    let mut reg = new_registry();
    let alice = addr("alice");
    let bob = addr("bob");
    let carol = addr("carol");
    reg.mint(&alice);
    reg.approve(&alice, &carol, 0).expect("alice owns id 0");
    let outcome = reg.transfer_from(&carol, &alice, &bob, 0).expect("carol is approved");
    assert_eq!(
        outcome,
        Outcome::Transferred { sender: addr("alice"), recipient: addr("bob"), token_id: TokenId(0) }
    );
    assert_eq!(reg.owner_of(0), Some(addr("bob")));
}

#[test]
fn transfer_from_with_wrong_delegate_fails() {
    let mut reg = new_registry();
    let alice = addr("alice");
    let bob = addr("bob");
    let carol = addr("carol");
    let dave = addr("dave");
    reg.mint(&alice);
    reg.approve(&alice, &carol, 0).expect("alice owns id 0");
    let r = reg.transfer_from(&dave, &alice, &bob, 0);
    assert_eq!(r.err(), Some(Error::InvalidAllowance));
    assert_eq!(reg.owner_of(0), Some(addr("alice")));
}

#[test]
fn transfer_of_unminted_id_fails() {
    let mut reg = new_registry();
    let alice = addr("alice");
    let bob = addr("bob");
    reg.mint(&alice);
    let r = reg.transfer(&alice, &bob, 5);
    assert_eq!(r.err(), Some(Error::TokenNotFound));
    let mut empty = new_registry();
    let r2 = empty.transfer(&alice, &bob, 0);
    assert_eq!(r2.err(), Some(Error::TokenNotFound));
}

#[test]
fn transfer_by_non_owner_fails() {
    let mut reg = new_registry();
    let alice = addr("alice");
    let bob = addr("bob");
    reg.mint(&alice);
    let r = reg.transfer(&bob, &bob, 0);
    assert_eq!(r.err(), Some(Error::InvalidOwner));
    assert_eq!(reg.owner_of(0), Some(addr("alice")));
    assert_eq!(reg.balance(&alice), 1);
}

#[test]
fn owner_lookup_of_unminted_id_reports_no_owner() {
    let reg = new_registry();
    let alice = addr("alice");
    assert_eq!(reg.owner_of(7), None);
    let r = reg.validate_token_owner(&TokenId::new(7), &alice);
    assert_eq!(r.err(), Some(Error::OwnerNotFound));
}

#[test]
fn approve_of_unminted_id_fails() {
    let mut reg = new_registry();
    let alice = addr("alice");
    let carol = addr("carol");
    let r = reg.approve(&alice, &carol, 3);
    assert_eq!(r.err(), Some(Error::OwnerNotFound));
    assert_eq!(reg.allowance_of(3), None);
}

#[test]
fn approval_round_trip_and_overwrite() {
    let mut reg = new_registry();
    let alice = addr("alice");
    let carol = addr("carol");
    let dave = addr("dave");
    reg.mint(&alice);
    reg.approve(&alice, &carol, 0).expect("alice owns id 0");
    assert_eq!(reg.allowance_of(0), Some(addr("carol")));
    reg.approve(&alice, &dave, 0).expect("alice owns id 0");
    assert_eq!(reg.allowance_of(0), Some(addr("dave")));
}

#[test]
fn approve_by_non_owner_fails() {
    let mut reg = new_registry();
    let alice = addr("alice");
    let bob = addr("bob");
    let carol = addr("carol");
    reg.mint(&alice);
    let r = reg.approve(&bob, &carol, 0);
    assert_eq!(r.err(), Some(Error::InvalidOwner));
    assert_eq!(reg.allowance_of(0), None);
}

#[test]
fn transfer_leaves_a_stale_approval() {
    // Mint id 0 to Alice; approve Carol; transfer directly to Bob.
    // The approval is not cleared: Carol stays recorded.
    let mut reg = new_registry();
    let alice = addr("alice");
    let bob = addr("bob");
    let carol = addr("carol");
    reg.mint(&alice);
    reg.approve(&alice, &carol, 0).expect("alice owns id 0");
    reg.transfer(&alice, &bob, 0).expect("alice owns id 0");
    assert_eq!(reg.allowance_of(0), Some(addr("carol")));
}

#[test]
fn transfer_to_self_keeps_the_balance() {
    let mut reg = new_registry();
    let alice = addr("alice");
    reg.mint(&alice);
    reg.mint(&alice);
    reg.transfer(&alice, &alice, 0).expect("alice owns id 0");
    assert_eq!(reg.balance(&alice), 2);
    assert_eq!(reg.owner_of(0), Some(addr("alice")));
}

#[test]
fn approve_for_all_is_not_supported() {
    let reg = new_registry();
    let alice = addr("alice");
    let bob = addr("bob");
    let r = reg.approve_for_all(&alice, &bob);
    assert_eq!(r.err(), Some(Error::NotSupported));
}

#[test]
fn queries_on_a_fresh_registry() {
    let reg = new_registry();
    let alice = addr("alice");
    assert_eq!(reg.balance(&alice), 0);
    assert_eq!(reg.owner_of(0), None);
    assert_eq!(reg.allowance_of(0), None);
}

#[test]
fn execute_routes_operations() {
    let mut reg = new_registry();
    let alice = addr("alice");
    let bob = addr("bob");
    let r = reg.execute(&alice, ExecuteMsg::Mint {}).expect("mint cannot fail");
    assert_eq!(r, Outcome::Minted { owner: addr("alice"), token_id: TokenId(0) });
    let r = reg
        .execute(&alice, ExecuteMsg::Approve { recipient: addr("bob"), token_id: 0 })
        .expect("alice owns id 0");
    assert_eq!(
        r,
        Outcome::Approved { owner: addr("alice"), recipient: addr("bob"), token_id: TokenId(0) }
    );
    let r = reg
        .execute(&bob, ExecuteMsg::TransferFrom {
            sender: addr("alice"),
            recipient: addr("bob"),
            token_id: 0,
        })
        .expect("bob is approved");
    assert_eq!(
        r,
        Outcome::Transferred { sender: addr("alice"), recipient: addr("bob"), token_id: TokenId(0) }
    );
    let r = reg.execute(&bob, ExecuteMsg::Transfer { recipient: addr("alice"), token_id: 0 });
    assert!(r.is_ok());
    assert_eq!(reg.owner_of(0), Some(addr("alice")));
    let r = reg.execute(&alice, ExecuteMsg::ApproveForAll {
        owner: addr("alice"),
        recipient: addr("bob"),
    });
    assert_eq!(r.err(), Some(Error::NotSupported));
}

#[test]
fn query_routes_lookups() {
    let mut reg = new_registry();
    let alice = addr("alice");
    reg.mint(&alice);
    assert_eq!(reg.query(QueryMsg::Balance { address: addr("alice") }), QueryAnswer::Balance(1));
    assert_eq!(
        reg.query(QueryMsg::Owner { token_id: 0 }),
        QueryAnswer::Owner(Some(addr("alice")))
    );
    assert_eq!(reg.query(QueryMsg::Allowance { token_id: 0 }), QueryAnswer::Allowance(None));
}

#[test]
fn transfer_moves_exactly_one_token() {
    // Balance conservation: one token moves, the minted count stays.
    let mut reg = new_registry();
    let alice = addr("alice");
    let bob = addr("bob");
    reg.mint(&alice);
    reg.mint(&alice);
    reg.mint(&bob);
    reg.transfer(&alice, &bob, 1).expect("alice owns id 1");
    assert_eq!(reg.balance(&alice), 1);
    assert_eq!(reg.balance(&bob), 2);
    // The next mint still takes the next sequential id.
    assert_eq!(reg.mint(&alice), TokenId(3));
}

#[test]
fn owners_with_prefix_names_stay_distinct() {
    // "a" and "ab" must land in different index entries.
    let mut reg = new_registry();
    let a = addr("a");
    let ab = addr("ab");
    assert_eq!(reg.mint(&a), TokenId(0));
    assert_eq!(reg.mint(&ab), TokenId(1));
    assert_eq!(reg.balance(&a), 1);
    assert_eq!(reg.balance(&ab), 1);
    assert_eq!(reg.owner_of(0), Some(addr("a")));
    assert_eq!(reg.owner_of(1), Some(addr("ab")));
}

#[test]
fn empty_address_is_a_valid_owner() {
    let mut reg = new_registry();
    let nobody = Addr::new(Vec::new());
    let alice = addr("alice");
    assert_eq!(reg.mint(&nobody), TokenId(0));
    assert_eq!(reg.balance(&nobody), 1);
    assert_eq!(reg.owner_of(0), Some(Addr::new(Vec::new())));
    reg.transfer(&nobody, &alice, 0).expect("the empty address owns id 0");
    assert_eq!(reg.balance(&nobody), 0);
    assert_eq!(reg.owner_of(0), Some(addr("alice")));
}

#[test]
fn token_id_accessors() {
    let t = TokenId::new(42);
    assert_eq!(t.as_u128(), 42);
    assert_eq!(t, TokenId(42));
}

#[test]
fn token_id_decimal_form() {
    assert_eq!(TokenId::new(0).to_string(), "0");
    assert_eq!(TokenId::new(7).to_string(), "7");
    assert_eq!(TokenId::new(1234).to_string(), "1234");
    assert_eq!(TokenId::new(10).to_string(), "10");
    assert_eq!(
        TokenId::new(u128::MAX).to_string(),
        "340282366920938463463374607431768211455"
    );
}

#[test]
fn token_id_canonical_bytes() {
    let b = TokenId::new(0x0102).as_bytes();
    assert_eq!(b.len(), 16);
    assert_eq!(b[0], 0x02);
    assert_eq!(b[1], 0x01);
    assert!(b[2..].iter().all(|&x| x == 0));
}
