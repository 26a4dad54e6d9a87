use balance_ledger::errors::ApiError;
use balance_ledger::models::client::validate_transaction_balance;
use balance_ledger::models::TransactionType;
use balance_ledger::requests::transactions::validate_movement;
use balance_ledger::requests::transactions::ValidationRule;
use balance_ledger::requests::TransactionRequest;
use balance_ledger::routes::validate_transaction_desc_size;

#[test]
fn balance_step_debit() {
    // Exactly on the limit: admitted.
    assert_eq!(
        validate_transaction_balance(0, 100, 100, &TransactionType::Debit),
        Ok(-100)
    );
    // One past the limit: rejected.
    assert_eq!(
        validate_transaction_balance(0, 101, 100, &TransactionType::Debit),
        Err(ApiError::UnprocessableEntity)
    );
    assert_eq!(
        validate_transaction_balance(-50, 60, 110, &TransactionType::Debit),
        Ok(-110)
    );
    assert_eq!(
        validate_transaction_balance(-50, 60, 100, &TransactionType::Debit),
        Err(ApiError::UnprocessableEntity)
    );
}

#[test]
fn balance_step_credit() {
    assert_eq!(
        validate_transaction_balance(-20, 30, 100, &TransactionType::Credit),
        Ok(10)
    );
    // The sum is computed exactly, never wrapped: past the balance type it
    // is rejected.
    assert_eq!(
        validate_transaction_balance(i32::MAX, 1, 0, &TransactionType::Credit),
        Err(ApiError::UnprocessableEntity)
    );
    assert_eq!(
        validate_transaction_balance(i32::MAX - 5, 5, 0, &TransactionType::Credit),
        Ok(i32::MAX)
    );
}

#[test]
fn balance_step_large_amount_debit_rejected() {
    // A huge magnitude cannot wrap into an admitted balance.
    assert_eq!(
        validate_transaction_balance(0, u32::MAX, i32::MAX, &TransactionType::Debit),
        Err(ApiError::UnprocessableEntity)
    );
}

#[test]
fn description_size_rule() {
    assert_eq!(validate_transaction_desc_size("a"), Ok(true));
    assert_eq!(validate_transaction_desc_size("abcdefghij"), Ok(true));
    assert_eq!(
        validate_transaction_desc_size(""),
        Err(ApiError::UnprocessableEntity)
    );
    assert_eq!(
        validate_transaction_desc_size("abcdefghijk"),
        Err(ApiError::UnprocessableEntity)
    );
    // Characters, not bytes: ten two-byte characters pass.
    assert_eq!(validate_transaction_desc_size("áéíóúáéíóú"), Ok(true));
}

#[test]
fn movement_rules_in_order() {
    assert_eq!(validate_movement(10, "ok"), Ok(()));
    assert_eq!(validate_movement(0, "ok"), Err(ValidationRule::AmountNotPositive));
    // Positivity is judged before representability, which is judged before
    // the description.
    assert_eq!(validate_movement(0, ""), Err(ValidationRule::AmountNotPositive));
    assert_eq!(
        validate_movement(2147483648, ""),
        Err(ValidationRule::AmountTooLarge)
    );
    assert_eq!(validate_movement(1, ""), Err(ValidationRule::DescriptionLength));
    assert_eq!(
        validate_movement(1, "elevenchars"),
        Err(ValidationRule::DescriptionLength)
    );
    // The largest representable magnitude is itself admitted.
    assert_eq!(validate_movement(2147483647, "max"), Ok(()));
}

#[test]
fn request_validation_delegates() {
    let good = TransactionRequest {
        amount: 3,
        description: "pix".to_string(),
        transaction_type: TransactionType::Debit,
    };
    assert_eq!(good.validate(), Ok(()));

    let bad = TransactionRequest {
        amount: 3,
        description: String::new(),
        transaction_type: TransactionType::Credit,
    };
    assert_eq!(bad.validate(), Err(ValidationRule::DescriptionLength));
}
