use kitties::balances::{AccountData, Balances, LedgerError};
use kitties::genome::{crossover, encode_random_payload, random_value, RandomSeed};
use kitties::pallet::{DispatchError, Error, Event, Pallet};

const RESERVE: u64 = 10;

fn seed() -> RandomSeed {
    let mut hash = [0u8; 32];
    for (i, b) in hash.iter_mut().enumerate() {
        *b = i as u8;
    }
    RandomSeed { hash, block_number: 1 }
}

fn funded(accounts: &[(u64, u64)]) -> Balances {
    let mut c = Balances::new(1);
    for (who, free) in accounts {
        c.set_balance(*who, *free);
    }
    c
}

#[test]
fn create_allocates_increasing_ids() {
    let mut p = Pallet::new(RESERVE);
    let mut c = funded(&[(1, 100)]);
    assert_eq!(p.kitties_count(), None);
    assert_eq!(p.create(&mut c, 1, &seed(), Some(0)), Ok(1));
    assert_eq!(p.create(&mut c, 1, &seed(), Some(1)), Ok(2));
    assert_eq!(p.create(&mut c, 1, &seed(), Some(2)), Ok(3));
    assert_eq!(p.kitties_count(), Some(4));
    assert_eq!(p.kitty_owner(2), Some(1));
    assert_eq!(c.free_balance(1), 70);
    assert_eq!(c.reserved_balance(1), 30);
    assert_eq!(p.events().len(), 3);
    assert_eq!(p.events()[1], Event::KittyCreated(1, 2));
}

#[test]
fn create_genome_is_the_drawn_value() {
    let mut p = Pallet::new(RESERVE);
    let mut c = funded(&[(7, 100)]);
    let id = p.create(&mut c, 7, &seed(), Some(3)).unwrap();
    assert_eq!(p.get_kitties(id).unwrap().0, random_value(&seed(), 7, Some(3)));
}

#[test]
fn create_without_funds_fails() {
    let mut p = Pallet::new(RESERVE);
    let mut c = funded(&[(1, 9)]);
    assert_eq!(
        p.create(&mut c, 1, &seed(), None),
        Err(DispatchError::Module(Error::NotEnoughBalance))
    );
    assert_eq!(p.kitties_count(), None);
    assert!(p.get_kitties(1).is_none());
    assert_eq!(c.free_balance(1), 9);
    assert_eq!(c.reserved_balance(1), 0);
    assert!(p.events().is_empty());
}

#[test]
fn create_fails_when_counter_is_at_max() {
    let mut p = Pallet::with_count(RESERVE, u32::MAX - 1);
    let mut c = funded(&[(1, 100)]);
    assert_eq!(p.create(&mut c, 1, &seed(), None), Ok(u32::MAX - 1));
    assert_eq!(p.kitties_count(), Some(u32::MAX));
    assert_eq!(
        p.create(&mut c, 1, &seed(), None),
        Err(DispatchError::Module(Error::KittiesCountOverflow))
    );
    assert_eq!(c.reserved_balance(1), RESERVE);
    assert_eq!(p.mint(1, [0u8; 16]), Err(Error::KittiesCountOverflow));
}

#[test]
fn create_without_funds_and_ids_reports_funds() {
    let mut p = Pallet::with_count(RESERVE, u32::MAX);
    let mut c = funded(&[(1, 9)]);
    assert_eq!(
        p.create(&mut c, 1, &seed(), None),
        Err(DispatchError::Module(Error::NotEnoughBalance))
    );
    assert_eq!(p.kitties_count(), Some(u32::MAX));
    assert_eq!(c.get_account(1), AccountData { free: 9, reserved: 0 });
    assert!(p.events().is_empty());
    c.set_balance(1, RESERVE);
    assert_eq!(
        p.create(&mut c, 1, &seed(), None),
        Err(DispatchError::Module(Error::KittiesCountOverflow))
    );
    assert_eq!(c.get_account(1), AccountData { free: RESERVE, reserved: 0 });
}

#[test]
fn ids_keep_rising_across_other_operations() {
    let mut p = Pallet::new(RESERVE);
    let mut c = funded(&[(1, 100), (2, 100)]);
    let k1 = p.create(&mut c, 1, &seed(), Some(0)).unwrap();
    let k2 = p.create(&mut c, 1, &seed(), Some(1)).unwrap();
    let k3 = p.breed(1, k1, k2, &seed(), Some(2)).unwrap();
    p.transfer(1, 2, k1).unwrap();
    p.sell(2, k1, Some(5)).unwrap();
    p.buy(&mut c, 1, k1).unwrap();
    let k4 = p.create(&mut c, 2, &seed(), Some(3)).unwrap();
    assert_eq!((k1, k2, k3, k4), (1, 2, 3, 4));
}

#[test]
fn mint_and_next_id() {
    let mut p = Pallet::new(RESERVE);
    assert_eq!(p.next_id(), Ok(1));
    assert_eq!(p.mint(4, [9u8; 16]), Ok(1));
    assert_eq!(p.next_id(), Ok(2));
    assert_eq!(p.get_kitties(1).unwrap().0, [9u8; 16]);
    assert_eq!(p.kitty_owner(1), Some(4));
}

#[test]
fn crossover_takes_bits_by_selector() {
    let r = crossover(&[0xF0u8; 16], &[0xAAu8; 16], &[0x55u8; 16]);
    assert_eq!(r, [0xA5u8; 16]);
    let mut sel = [0u8; 16];
    sel[0] = 0xFF;
    sel[15] = 0x0F;
    let r = crossover(&sel, &[0x12u8; 16], &[0x34u8; 16]);
    assert_eq!(r[0], 0x12);
    assert_eq!(r[1], 0x34);
    assert_eq!(r[15], 0x32);
    assert_eq!(crossover(&sel, &[0x12u8; 16], &[0x34u8; 16]), r);
}

#[test]
fn random_value_is_a_digest_of_the_payload() {
    let payload = encode_random_payload(&seed(), 7, Some(2));
    assert_eq!(payload.len(), 32 + 8 + 8 + 5);
    assert_eq!(&payload[..32], &seed().hash[..]);
    assert_eq!(&payload[32..40], &[1, 0, 0, 0, 0, 0, 0, 0]);
    assert_eq!(&payload[40..48], &[7, 0, 0, 0, 0, 0, 0, 0]);
    assert_eq!(&payload[48..], &[1, 2, 0, 0, 0]);
    assert_eq!(encode_random_payload(&seed(), 7, None)[48..], [0]);
    let v = random_value(&seed(), 7, Some(2));
    assert_ne!(&v[..], &payload[..16]);
    assert_eq!(v, random_value(&seed(), 7, Some(2)));
    assert_ne!(v, random_value(&seed(), 7, Some(3)));
    assert_ne!(v, random_value(&seed(), 8, Some(2)));
}

#[test]
fn breed_same_parent_fails() {
    let mut p = Pallet::new(RESERVE);
    assert_eq!(p.breed(1, 5, 5, &seed(), None), Err(Error::BreedFromSameParent));
    p.mint(1, [1u8; 16]).unwrap();
    assert_eq!(p.breed(1, 1, 1, &seed(), None), Err(Error::BreedFromSameParent));
    assert_eq!(p.breed(2, 1, 1, &seed(), None), Err(Error::BreedFromSameParent));
    assert_eq!(p.kitties_count(), Some(2));
}

#[test]
fn breed_checks_parents() {
    let mut p = Pallet::new(RESERVE);
    p.mint(1, [1u8; 16]).unwrap();
    p.mint(2, [2u8; 16]).unwrap();
    assert_eq!(p.breed(1, 1, 9, &seed(), None), Err(Error::InvalidKittyIndex));
    assert_eq!(p.breed(1, 9, 1, &seed(), None), Err(Error::InvalidKittyIndex));
    assert_eq!(p.breed(1, 1, 2, &seed(), None), Err(Error::NotCorrectOwner));
    assert_eq!(p.kitties_count(), Some(3));
}

#[test]
fn breed_mints_crossover_of_parents() {
    let mut p = Pallet::new(RESERVE);
    let mut c = funded(&[(1, 100)]);
    let k1 = p.create(&mut c, 1, &seed(), Some(0)).unwrap();
    let k2 = p.create(&mut c, 1, &seed(), Some(1)).unwrap();
    let k3 = p.breed(1, k1, k2, &seed(), Some(2)).unwrap();
    assert_eq!(k3, 3);
    assert_eq!(p.kitty_owner(k3), Some(1));
    let g1 = p.get_kitties(k1).unwrap().0;
    let g2 = p.get_kitties(k2).unwrap().0;
    let selector = random_value(&seed(), 1, Some(2));
    assert_eq!(p.get_kitties(k3).unwrap().0, crossover(&selector, &g1, &g2));
    assert_eq!(c.reserved_balance(1), 2 * RESERVE);
    assert_eq!(p.events()[2], Event::KittyCreated(1, 3));
}

#[test]
fn breed_with_selector_mints_given_crossover() {
    let mut p = Pallet::new(RESERVE);
    p.mint(1, [0xAAu8; 16]).unwrap();
    p.mint(1, [0x55u8; 16]).unwrap();
    assert_eq!(p.breed_with_selector(1, 1, 2, &[0xF0u8; 16]), Ok(3));
    assert_eq!(p.get_kitties(3).unwrap().0, [0xA5u8; 16]);
}

#[test]
fn transfer_rules() {
    let mut p = Pallet::new(RESERVE);
    p.mint(1, [1u8; 16]).unwrap();
    p.mint(1, [2u8; 16]).unwrap();
    assert_eq!(p.transfer(1, 1, 1), Err(Error::SameOwner));
    assert_eq!(p.transfer(1, 2, 9), Err(Error::InvalidKittyIndex));
    assert_eq!(p.transfer(1, 2, 1), Ok(()));
    assert_eq!(p.kitty_owner(1), Some(2));
    assert_eq!(p.kitty_owner(2), Some(1));
    assert_eq!(p.events()[2], Event::KittyTransfered(1, 2, 1));
}

#[test]
fn transfer_by_non_owner_fails() {
    let mut p = Pallet::new(RESERVE);
    p.mint(1, [1u8; 16]).unwrap();
    assert_eq!(p.transfer(2, 3, 1), Err(Error::NotCorrectOwner));
    assert_eq!(p.kitty_owner(1), Some(1));
    assert_eq!(p.events().len(), 1);
}

#[test]
fn transfer_moves_no_collateral() {
    let mut p = Pallet::new(RESERVE);
    let mut c = funded(&[(1, 100)]);
    p.create(&mut c, 1, &seed(), None).unwrap();
    p.transfer(1, 2, 1).unwrap();
    assert_eq!(c.reserved_balance(1), RESERVE);
    assert_eq!(c.reserved_balance(2), 0);
}

#[test]
fn sell_lists_and_clears() {
    let mut p = Pallet::new(RESERVE);
    p.mint(1, [1u8; 16]).unwrap();
    assert_eq!(p.sell(2, 1, Some(5)), Err(Error::NotCorrectOwner));
    assert_eq!(p.sell(1, 9, Some(5)), Err(Error::NotCorrectOwner));
    assert_eq!(p.sell(1, 1, Some(5)), Ok(()));
    assert_eq!(p.kitties_price(1), Some(5));
    assert_eq!(p.events()[1], Event::KittySale(1, 1, Some(5)));
    assert_eq!(p.sell(1, 1, None), Ok(()));
    assert_eq!(p.kitties_price(1), None);
    assert_eq!(p.events()[2], Event::ErrorSalePrice(1, 1));
}

#[test]
fn buy_unlisted_fails() {
    let mut p = Pallet::new(RESERVE);
    let mut c = funded(&[(1, 100), (2, 100)]);
    p.create(&mut c, 1, &seed(), None).unwrap();
    assert_eq!(p.buy(&mut c, 2, 1), Err(DispatchError::Module(Error::NotForSale)));
    assert_eq!(p.kitty_owner(1), Some(1));
    assert_eq!(c.get_account(1), AccountData { free: 90, reserved: 10 });
    assert_eq!(c.get_account(2), AccountData { free: 100, reserved: 0 });
}

#[test]
fn buy_own_kitty_fails() {
    let mut p = Pallet::new(RESERVE);
    let mut c = funded(&[(1, 100)]);
    p.create(&mut c, 1, &seed(), None).unwrap();
    p.sell(1, 1, Some(5)).unwrap();
    assert_eq!(p.buy(&mut c, 1, 1), Err(DispatchError::Module(Error::KittyAlreadyOwned)));
    assert_eq!(p.buy(&mut c, 1, 7), Err(DispatchError::Module(Error::InvalidKittyIndex)));
}

#[test]
fn buy_without_collateral_fails() {
    let mut p = Pallet::new(RESERVE);
    let mut c = funded(&[(1, 100), (2, 5)]);
    p.create(&mut c, 1, &seed(), None).unwrap();
    p.sell(1, 1, Some(3)).unwrap();
    assert_eq!(p.buy(&mut c, 2, 1), Err(DispatchError::Module(Error::NotEnoughBalance)));
    assert_eq!(c.get_account(2), AccountData { free: 5, reserved: 0 });
    assert_eq!(p.kitties_price(1), Some(3));
}

#[test]
fn buy_moves_collateral_price_and_ownership() {
    let mut p = Pallet::new(RESERVE);
    let mut c = funded(&[(1, 100), (2, 100)]);
    let k1 = p.create(&mut c, 1, &seed(), None).unwrap();
    assert_eq!(c.reserved_balance(1), RESERVE);
    p.sell(1, k1, Some(30)).unwrap();
    assert_eq!(p.buy(&mut c, 2, k1), Ok(()));
    assert_eq!(c.get_account(2), AccountData { free: 60, reserved: 10 });
    assert_eq!(c.get_account(1), AccountData { free: 130, reserved: 0 });
    assert_eq!(p.kitty_owner(k1), Some(2));
    assert_eq!(p.kitties_price(k1), None);
    assert_eq!(p.events().last(), Some(&Event::KittyTransfered(1, 2, k1)));
}

#[test]
fn buy_payment_failure_is_undone() {
    let mut p = Pallet::new(RESERVE);
    let mut c = Balances::new(20);
    c.set_balance(1, 100);
    c.set_balance(2, 50);
    p.create(&mut c, 1, &seed(), None).unwrap();
    p.sell(1, 1, Some(45)).unwrap();
    assert_eq!(p.buy(&mut c, 2, 1), Err(DispatchError::Ledger(LedgerError::InsufficientBalance)));
    assert_eq!(c.get_account(1), AccountData { free: 90, reserved: 10 });
    assert_eq!(c.get_account(2), AccountData { free: 50, reserved: 0 });
    assert_eq!(p.kitty_owner(1), Some(1));
    assert_eq!(p.kitties_price(1), Some(45));
    p.sell(1, 1, Some(40)).unwrap();
    assert_eq!(p.buy(&mut c, 2, 1), Err(DispatchError::Ledger(LedgerError::KeepAlive)));
    assert_eq!(c.get_account(2), AccountData { free: 50, reserved: 0 });
}

#[test]
fn ledger_reserve_unreserve() {
    let mut c = funded(&[(1, 20)]);
    assert_eq!(c.reserve(1, 25), Err(LedgerError::InsufficientBalance));
    assert_eq!(c.reserve(1, 15), Ok(()));
    assert_eq!(c.get_account(1), AccountData { free: 5, reserved: 15 });
    assert_eq!(c.unreserve(1, 20), 5);
    assert_eq!(c.get_account(1), AccountData { free: 20, reserved: 0 });
}

#[test]
fn ledger_transfer_rules() {
    let mut c = Balances::new(10);
    c.set_balance(1, 100);
    assert_eq!(c.existential_deposit(), 10);
    assert_eq!(c.transfer(1, 2, 5, false), Err(LedgerError::ExistentialDeposit));
    assert_eq!(c.transfer(1, 2, 95, true), Err(LedgerError::KeepAlive));
    assert_eq!(c.transfer(1, 2, 101, false), Err(LedgerError::InsufficientBalance));
    assert_eq!(c.transfer(1, 2, 95, false), Ok(()));
    assert_eq!(c.free_balance(1), 5);
    assert_eq!(c.free_balance(2), 95);
    c.set_balance(3, u64::MAX);
    assert_eq!(c.transfer(2, 3, 20, false), Err(LedgerError::Overflow));
    c.set_account(4, AccountData { free: u64::MAX - 30, reserved: 20 });
    assert_eq!(c.transfer(2, 4, 20, false), Err(LedgerError::Overflow));
    assert_eq!(c.free_balance(2), 95);
    assert_eq!(c.transfer(2, 2, 20, false), Ok(()));
    assert_eq!(c.free_balance(2), 95);
}
