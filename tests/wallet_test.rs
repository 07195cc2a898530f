use gsio_node::wallet::{TransactionType, Wallet, WalletError};

#[test]
fn test_wallet_creation() {
    let wallet = Wallet::new();
    assert!(!wallet.has_keypair());
    assert_eq!(wallet.account_count(), 0);
}

#[test]
fn test_keypair_generation() {
    let mut wallet = Wallet::new();
    let address = wallet.generate_keypair().unwrap();
    assert!(wallet.has_keypair());
    assert!(wallet.get_account(&address).is_ok());
}

#[test]
fn address_is_prefix_and_forty_hex_digits() {
    let mut wallet = Wallet::new();
    let address = wallet.generate_keypair().unwrap();
    assert!(address.starts_with("gsio_"));
    assert_eq!(address.len(), 45);
    let account = wallet.get_account(&address).unwrap();
    assert_eq!(account.public_key.len(), 64);
    assert!(account.public_key.starts_with(&address[5..]));
    assert_eq!(account.balance, 0);
    assert_eq!(wallet.get_balance(&address), Ok(0));
    assert_eq!(wallet.get_transaction_history(&address), Ok(vec![]));
}

#[test]
fn unknown_account_is_reported() {
    let wallet = Wallet::new();
    assert!(matches!(wallet.get_account("nope"), Err(WalletError::WalletNotFound(a)) if a == "nope"));
    assert_eq!(wallet.get_balance("nope"), Err(WalletError::WalletNotFound("nope".to_string())));
    let r = wallet.create_transaction("nope", "x", 1, 1, TransactionType::Transfer, None);
    assert!(matches!(r, Err(WalletError::WalletNotFound(_))));
}

#[test]
fn insufficient_funds_reports_cost_and_balance() {
    let mut wallet = Wallet::new();
    let address = wallet.generate_keypair().unwrap();
    let r = wallet.create_transaction(&address, "x", 5, 2, TransactionType::Transfer, None);
    assert!(matches!(r, Err(WalletError::InsufficientFunds(7, 0))));
    let r = wallet.create_transaction(&address, "x", u64::MAX, 2, TransactionType::Stake, None);
    assert!(matches!(r, Err(WalletError::InsufficientFunds(u64::MAX, 0))));
    let r = wallet.create_transaction(&address, "x", 0, 0, TransactionType::Unstake, Some("{}".to_string()));
    let t = r.unwrap();
    assert_eq!(t.id.len(), 36);
    assert!(t.signature.is_none());
    assert_eq!(wallet.submit_transaction(&t), Ok(t.id.clone()));
}

#[test]
fn signing_needs_a_key_pair() {
    let mut wallet = Wallet::new();
    let address = wallet.generate_keypair().unwrap();
    let mut t = wallet.create_transaction(&address, "x", 0, 0, TransactionType::Transfer, None).unwrap();
    assert_eq!(wallet.sign_transaction(&mut t), Ok(()));
    assert_eq!(t.signature.as_deref(), Some("dummy_signature"));

    let empty = Wallet::new();
    let mut t2 = wallet.create_transaction(&address, "x", 0, 0, TransactionType::Transfer, None).unwrap();
    assert_eq!(empty.sign_transaction(&mut t2), Err(WalletError::KeyNotFound("No keypair loaded".to_string())));
    assert!(t2.signature.is_none());
}

#[test]
fn saving_needs_a_path() {
    let mut wallet = Wallet::new();
    assert_eq!(wallet.save(), Err(WalletError::IoError("Wallet path not set".to_string())));
    assert_eq!(wallet.load("/tmp/w.json".to_string()), Ok(()));
    assert_eq!(wallet.save(), Ok(()));
}
