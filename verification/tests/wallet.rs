use bazaar::asset::Asset;
use bazaar::decimal::Decimal;
use bazaar::wallet::{Wallet, WalletError};

#[test]
fn allocation() {
    let asset1 = Asset::new("BTC-PERP");
    let asset2 = Asset::new("BTC-PERP");
    let asset3 = Asset::new("ETH-PERP");
    assert!(asset1 == asset2);
    assert!(!(asset1 == asset3));
    assert_eq!(asset1.name(), "BTC-PERP");
}

#[test]
fn deposit_withdraw() {
    let mut wallet = Wallet::new();
    let asset = Asset::new("BTC");
    wallet.deposit(Decimal::new(10, 0), &asset).unwrap();
    wallet.withdraw(Decimal::new(10, 0), &asset).unwrap_err();
    wallet.reserve(Decimal::new(10, 0), &asset).unwrap();
    wallet.withdraw(Decimal::new(10, 0), &asset).unwrap();
}

#[test]
fn wallet_reserve_more_than_free_is_refused() {
    let mut wallet = Wallet::new();
    let asset = Asset::new("USD");
    wallet.deposit(Decimal::new(10, 0), &asset).unwrap();
    assert_eq!(wallet.reserve(Decimal::new(11, 0), &asset), Err(WalletError::NotEnoughTotal));
    assert_eq!(wallet.free(&asset), Decimal::new(10, 0));
    assert_eq!(wallet.total(&asset), Decimal::new(10, 0));
}

#[test]
fn wallet_bookings() {
    let usd = Asset::new("USD");
    let mut wallet = Wallet::new();
    assert!(wallet.is_fresh());
    assert_eq!(wallet.total(&usd), Decimal::new(0, 0));
    wallet.deposit(Decimal::new(100, 0), &usd).unwrap();
    assert!(!wallet.is_fresh());
    wallet.reserve(Decimal::new(30, 0), &usd).unwrap();
    assert_eq!(wallet.free(&usd), Decimal::new(70, 0));
    assert_eq!(wallet.unreserve(Decimal::new(31, 0), &usd), Err(WalletError::NotEnoughReserved));
    wallet.unreserve(Decimal::new(10, 0), &usd).unwrap();
    assert_eq!(wallet.free(&usd), Decimal::new(80, 0));
    assert_eq!(wallet.withdraw(Decimal::new(21, 0), &usd), Err(WalletError::NotEnoughReserved));
    wallet.withdraw(Decimal::new(5, 0), &usd).unwrap();
    assert_eq!(wallet.total(&usd), Decimal::new(95, 0));
    assert_eq!(wallet.free(&usd), Decimal::new(80, 0));
    wallet.unreserve_all(&usd);
    assert_eq!(wallet.free(&usd), Decimal::new(95, 0));
    let max = Decimal::try_new(79228162514264337593543950335, 0).unwrap();
    assert_eq!(wallet.deposit(max, &usd), Err(WalletError::Overflow));
    assert_eq!(wallet.total(&usd), Decimal::new(95, 0));
    let assets = wallet.assets();
    assert_eq!(assets.len(), 1);
    assert_eq!(assets[0].0, usd);
    assert_eq!(assets[0].1, Decimal::new(95, 0));
    assert_eq!(WalletError::Overflow.to_string(), "Amount out of range.");
}
