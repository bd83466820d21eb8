use blockchainpow::errors::TransactionError;
use blockchainpow::wallet::transaction::{sign_data, Transaction};
use blockchainpow::wallet::wallet::{generate_wallet, Wallet};

#[test]
fn test_new_signed_valid_transaction() {
    let from_wallet = generate_wallet();
    let to_wallet = generate_wallet();

    let tx_result = Transaction::new_signed(&from_wallet, to_wallet.address.clone(), 50);
    assert!(tx_result.is_ok(), "the transaction must be created");

    let tx = tx_result.unwrap();

    assert_eq!(tx.from_address, from_wallet.address, "from_address is the sender's");
    assert_eq!(tx.to_address, to_wallet.address, "to_address is the recipient's");
    assert_eq!(tx.amount, 50);
    assert!(tx.public_key.is_some(), "the transaction carries the sender's public key");
    assert!(tx.signature.is_some(), "the transaction is signed");

    let valid = tx.is_valid();
    assert!(valid, "the transaction must be valid");
}

#[test]
fn test_new_signed_invalid_amount() {
    let from_wallet = generate_wallet();
    let to_wallet = generate_wallet();

    let tx_result = Transaction::new_signed(&from_wallet, to_wallet.address.clone(), 0);
    assert!(tx_result.is_err(), "an amount of 0 must be refused");

    if let Err(e) = tx_result {
        match e {
            TransactionError::InvalidAmount => {}
            TransactionError::InvalidSignature(_) | TransactionError::InvalidTx(_) => {
                panic!("expected TransactionError::InvalidAmount, got another error");
            }
        }
    }
}

#[test]
fn test_is_valid_missing_signature_or_pubkey() {
    let from_wallet = generate_wallet();
    let to_wallet = generate_wallet();

    let mut tx = Transaction::new_signed(&from_wallet, to_wallet.address.clone(), 10)
        .expect("must be created");
    assert!(tx.is_valid(), "valid at first");

    tx.signature = None;
    assert!(!tx.is_valid(), "without a signature the transaction cannot be valid");

    tx.public_key = None;
    assert!(!tx.is_valid(), "without a public key the transaction is not valid");
}

#[test]
fn test_tx_hash_changes_if_fields_change() {
    let from_wallet = generate_wallet();
    let to_wallet = generate_wallet();

    let tx = Transaction::new_signed(&from_wallet, to_wallet.address.clone(), 100)
        .expect("created with amount 100");

    let hash1 = tx.tx_hash();
    assert!(!hash1.is_empty(), "the hash is not empty");

    let mut tx2 = tx.clone();
    tx2.amount = 200;

    let hash2 = tx2.tx_hash();
    assert_ne!(hash1, hash2, "the hash must change with the amount");

    tx2.amount = 100;

    tx2.signature = None;
    let hash3 = tx2.tx_hash();
    assert_ne!(hash1, hash3, "the hash must change with the signature");
}

#[test]
fn test_tx_hash_is_deterministic() {
    let from_wallet = generate_wallet();
    let to_wallet = generate_wallet();

    let tx1 = Transaction::new_signed(&from_wallet, to_wallet.address.clone(), 10).expect("ok");
    let tx2 = Transaction::new_signed(&from_wallet, to_wallet.address.clone(), 10).expect("ok");

    assert_eq!(tx1.tx_hash(), tx2.tx_hash(), "Hash should be same if signature is deterministic");
}

#[test]
fn is_valid_only_with_public_key_missing() {
    let wallet = generate_wallet();
    let mut tx = Transaction::new_signed(&wallet, "Bob".to_string(), 10).unwrap();
    tx.public_key = None;
    assert!(!tx.is_valid());
}

#[test]
fn flipping_any_signature_byte_invalidates() {
    let wallet = generate_wallet();
    let tx = Transaction::new_signed(&wallet, "Bob".to_string(), 10).unwrap();
    assert!(tx.is_valid());
    let signature = tx.signature.clone().unwrap();
    assert_eq!(signature.len(), 64);
    for i in 0..signature.len() {
        let mut tampered = tx.clone();
        let mut bytes = signature.clone();
        bytes[i] ^= 0x01;
        tampered.signature = Some(bytes);
        assert!(!tampered.is_valid(), "byte {} flipped", i);
    }
}

#[test]
fn another_public_key_invalidates() {
    let wallet = generate_wallet();
    let other = generate_wallet();
    let mut tx = Transaction::new_signed(&wallet, "Bob".to_string(), 10).unwrap();
    assert!(tx.is_valid());
    tx.public_key = Some(other.public_key.clone());
    assert!(!tx.is_valid());
}

#[test]
fn changed_payload_invalidates() {
    let wallet = generate_wallet();
    let tx = Transaction::new_signed(&wallet, "Bob".to_string(), 10).unwrap();

    let mut more = tx.clone();
    more.amount = 11;
    assert!(!more.is_valid());

    let mut elsewhere = tx.clone();
    elsewhere.to_address = "Eve".to_string();
    assert!(!elsewhere.is_valid());

    let mut from_another = tx.clone();
    from_another.from_address = "Mallory".to_string();
    assert!(!from_another.is_valid());
}

#[test]
fn malformed_key_material_is_not_valid() {
    let wallet = generate_wallet();
    let tx = Transaction::new_signed(&wallet, "Bob".to_string(), 10).unwrap();

    let mut short_signature = tx.clone();
    short_signature.signature = Some(vec![1, 2, 3]);
    assert!(!short_signature.is_valid());

    let mut empty_key = tx.clone();
    empty_key.public_key = Some(vec![]);
    assert!(!empty_key.is_valid());

    let mut no_point = tx.clone();
    no_point.public_key = Some(vec![0xff; 33]);
    assert!(!no_point.is_valid());
}

#[test]
fn new_signed_with_an_unusable_secret_key() {
    let wallet = Wallet::from_keys(vec![0; 32], generate_wallet().public_key);
    let result = Transaction::new_signed(&wallet, "Bob".to_string(), 5);
    assert_eq!(result, Err(TransactionError::InvalidTx("Invalid secret key".to_string())));

    let short = Wallet::from_keys(vec![1, 2, 3], generate_wallet().public_key);
    let result = Transaction::new_signed(&short, "Bob".to_string(), 5);
    assert_eq!(result, Err(TransactionError::InvalidTx("Invalid secret key".to_string())));
}

#[test]
fn new_signed_refuses_zero_before_looking_at_the_key() {
    let wallet = Wallet::from_keys(vec![0; 32], vec![]);
    let result = Transaction::new_signed(&wallet, "Bob".to_string(), 0);
    assert_eq!(result, Err(TransactionError::InvalidAmount));
}

#[test]
fn new_signed_with_keys_that_do_not_belong_together() {
    let one = generate_wallet();
    let other = generate_wallet();
    let mixed = Wallet::from_keys(one.secret_key.clone(), other.public_key.clone());
    let tx = Transaction::new_signed(&mixed, "Bob".to_string(), 5).unwrap();
    assert_eq!(tx.public_key, Some(other.public_key.clone()));
    assert!(!tx.is_valid());
}

#[test]
fn sign_data_is_deterministic_and_bound_to_the_data() {
    let wallet = Wallet::from_keys(vec![0xcd; 32], vec![]);
    let first = sign_data(&wallet, b"Alice|Bob|50").unwrap();
    let second = sign_data(&wallet, b"Alice|Bob|50").unwrap();
    let other = sign_data(&wallet, b"Alice|Bob|51").unwrap();
    assert_eq!(first.len(), 64);
    assert_eq!(first, second);
    assert_ne!(first, other);
    assert_ne!(first, b"Alice|Bob|50".to_vec());
}

#[test]
fn sign_data_with_an_unusable_key() {
    let wallet = Wallet::from_keys(vec![0xff; 32], vec![]);
    assert_eq!(sign_data(&wallet, b"data"), None);
}

#[test]
fn tx_hash_of_an_unsigned_transaction() {
    // The hash covers the bytes "Alice|Bob|50".
    let tx = Transaction {
        from_address: "Alice".into(),
        to_address: "Bob".into(),
        amount: 50,
        public_key: None,
        signature: None,
    };
    assert_eq!(tx.tx_hash(), "78e3c358a9e5d285dcdca85eaa460aeac87e0303a4352c3aa55017533954619a");
}

#[test]
fn tx_hash_covers_key_and_signature_as_hex() {
    // The hash covers the bytes "Alice|Bob|50010203ff00".
    let tx = Transaction {
        from_address: "Alice".into(),
        to_address: "Bob".into(),
        amount: 50,
        public_key: Some(vec![1, 2, 3]),
        signature: Some(vec![255, 0]),
    };
    assert_eq!(tx.tx_hash(), "e0bf4fb46fa5edc6c1492d65f28eb573da51ab2e2869023fcdc00f47401de6f1");
}

#[test]
fn a_cloned_transaction_equals_its_source() {
    let wallet = generate_wallet();
    let tx = Transaction::new_signed(&wallet, "Bob".to_string(), 10).unwrap();
    assert_eq!(tx.clone(), tx);
}

#[test]
fn transaction_error_to_string() {
    assert_eq!(TransactionError::InvalidAmount.to_string(), "Invalid transaction amount");
    assert_eq!(
        TransactionError::InvalidSignature("Signature does not match".to_string()).to_string(),
        "Invalid signature: Signature does not match"
    );
    assert_eq!(
        TransactionError::InvalidTx("Missing public key".to_string()).to_string(),
        "Invalid transaction: Missing public key"
    );
    assert_eq!(TransactionError::InvalidTx(String::new()).to_string(), "Invalid transaction: ");
}

#[test]
fn with_signature_carries_the_wallets_key_and_the_signature() {
    let wallet = Wallet::from_keys(vec![1; 32], vec![2, 3, 4]);
    let tx = Transaction::with_signature(&wallet, "Bob".to_string(), 5, Some(vec![9, 8])).unwrap();
    assert_eq!(
        tx,
        Transaction {
            from_address: wallet.address.clone(),
            to_address: "Bob".to_string(),
            amount: 5,
            public_key: Some(vec![2, 3, 4]),
            signature: Some(vec![9, 8]),
        }
    );
}

#[test]
fn with_signature_without_a_signature_is_a_rejection() {
    let wallet = Wallet::from_keys(vec![1; 32], vec![2, 3, 4]);
    let result = Transaction::with_signature(&wallet, "Bob".to_string(), 5, None);
    assert_eq!(result, Err(TransactionError::InvalidTx("Invalid secret key".to_string())));
}
