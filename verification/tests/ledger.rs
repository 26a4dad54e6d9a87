use balance_ledger::ledger::Ledger;
use balance_ledger::ledger::LedgerError;
use balance_ledger::models::TransactionType;
use balance_ledger::requests::transactions::ValidationRule;
use balance_ledger::requests::TransactionRequest;
use balance_ledger::routes::get_transactions;
use balance_ledger::routes::make_transaction;

fn request(amount: u32, description: &str, kind: TransactionType) -> TransactionRequest {
    TransactionRequest { amount, description: description.to_string(), transaction_type: kind }
}

#[test]
fn overdraft_scenarios() {
    let mut ledger = Ledger::new();
    assert!(ledger.seed_client(1, 100, 0, 0));

    let a = make_transaction(&mut ledger, 1, request(50, "debit a", TransactionType::Debit), 1);
    let a = a.expect("debit within the limit succeeds");
    assert_eq!(a.balance, -50);
    assert_eq!(a.balance_limit, 100);

    let b = make_transaction(&mut ledger, 1, request(60, "debit b", TransactionType::Debit), 2);
    assert_eq!(b.unwrap_err(), LedgerError::LimitExceeded);
    let statement = get_transactions(&ledger, 1).unwrap();
    assert_eq!(statement.saldo.total, -50);

    let c = make_transaction(&mut ledger, 1, request(30, "credit c", TransactionType::Credit), 3);
    let c = c.expect("credit succeeds");
    assert_eq!(c.balance, -20);
}

#[test]
fn rejection_changes_nothing() {
    let mut ledger = Ledger::new();
    assert!(ledger.seed_client(1, 100, 0, 0));
    let ok = make_transaction(&mut ledger, 1, request(80, "start", TransactionType::Debit), 1);
    assert_eq!(ok.unwrap().balance, -80);
    let before_count = ledger.transaction_count();

    let rejected = make_transaction(&mut ledger, 1, request(21, "too much", TransactionType::Debit), 2);
    assert_eq!(rejected.unwrap_err(), LedgerError::LimitExceeded);

    assert_eq!(ledger.transaction_count(), before_count);
    let statement = get_transactions(&ledger, 1).unwrap();
    assert_eq!(statement.saldo.total, -80);
    assert_eq!(statement.transacoes.len(), 1);
}

#[test]
fn validation_rejected_before_store_access() {
    let mut ledger = Ledger::new();
    assert!(ledger.seed_client(1, 100, 0, 0));

    let r = make_transaction(
        &mut ledger,
        1,
        request(10, "elevenchars", TransactionType::Credit),
        1,
    );
    assert_eq!(
        r.unwrap_err(),
        LedgerError::ValidationFailed(ValidationRule::DescriptionLength)
    );
    assert_eq!(ledger.transaction_count(), 0);
    let statement = get_transactions(&ledger, 1).unwrap();
    assert_eq!(statement.saldo.total, 0);

    // An invalid request against an unknown account still fails validation
    // first: the store is never consulted.
    let r = make_transaction(&mut ledger, 9, request(0, "x", TransactionType::Credit), 1);
    assert_eq!(
        r.unwrap_err(),
        LedgerError::ValidationFailed(ValidationRule::AmountNotPositive)
    );
}

#[test]
fn validation_counts_characters_not_bytes() {
    let mut ledger = Ledger::new();
    assert!(ledger.seed_client(1, 100, 0, 0));

    // Ten characters, twenty bytes: admitted.
    let ten_wide = "áéíóúáéíóú";
    assert_eq!(ten_wide.chars().count(), 10);
    let r = make_transaction(&mut ledger, 1, request(5, ten_wide, TransactionType::Credit), 1);
    assert_eq!(r.unwrap().balance, 5);

    // Eleven characters: rejected.
    let eleven_wide = "áéíóúáéíóúá";
    assert_eq!(eleven_wide.chars().count(), 11);
    let r = make_transaction(&mut ledger, 1, request(5, eleven_wide, TransactionType::Credit), 2);
    assert_eq!(
        r.unwrap_err(),
        LedgerError::ValidationFailed(ValidationRule::DescriptionLength)
    );
}

#[test]
fn validation_rejects_unrepresentable_amount() {
    let mut ledger = Ledger::new();
    assert!(ledger.seed_client(1, 100, 0, 0));
    let r = make_transaction(
        &mut ledger,
        1,
        request(2147483648, "big", TransactionType::Credit),
        1,
    );
    assert_eq!(
        r.unwrap_err(),
        LedgerError::ValidationFailed(ValidationRule::AmountTooLarge)
    );
    assert_eq!(ledger.transaction_count(), 0);
}

#[test]
fn unknown_account_on_both_paths() {
    let mut ledger = Ledger::new();
    assert!(ledger.seed_client(1, 100, 0, 0));

    let r = make_transaction(&mut ledger, 7, request(10, "x", TransactionType::Credit), 1);
    assert_eq!(r.unwrap_err(), LedgerError::AccountNotFound);

    let s = get_transactions(&ledger, 7);
    assert_eq!(s.unwrap_err(), LedgerError::AccountNotFound);
}

#[test]
fn serialized_unit_credits_accumulate() {
    let mut ledger = Ledger::new();
    assert!(ledger.seed_client(1, 0, 7, 0));
    for k in 0..50 {
        let r = make_transaction(&mut ledger, 1, request(1, "one", TransactionType::Credit), k + 1);
        assert_eq!(r.unwrap().balance, 7 + (k as i32) + 1);
    }
    assert_eq!(ledger.transaction_count(), 50);
    let statement = get_transactions(&ledger, 1).unwrap();
    assert_eq!(statement.saldo.total, 57);
}

#[test]
fn balance_and_movements_change_together() {
    let mut ledger = Ledger::new();
    assert!(ledger.seed_client(1, 10, 0, 0));

    // Success: the balance moves and exactly one movement appears with it.
    let r = make_transaction(&mut ledger, 1, request(4, "pair", TransactionType::Debit), 1);
    assert_eq!(r.unwrap().balance, -4);
    assert_eq!(ledger.transaction_count(), 1);
    let statement = get_transactions(&ledger, 1).unwrap();
    assert_eq!(statement.saldo.total, -4);
    assert_eq!(statement.transacoes.len(), 1);
    assert_eq!(statement.transacoes[0].valor, 4);

    // Failure: neither the balance nor the movements move.
    let r = make_transaction(&mut ledger, 1, request(7, "pair", TransactionType::Debit), 2);
    assert_eq!(r.unwrap_err(), LedgerError::LimitExceeded);
    assert_eq!(ledger.transaction_count(), 1);
    let statement = get_transactions(&ledger, 1).unwrap();
    assert_eq!(statement.saldo.total, -4);
    assert_eq!(statement.transacoes.len(), 1);
}

#[test]
fn statement_returns_last_ten_newest_first() {
    let mut ledger = Ledger::new();
    assert!(ledger.seed_client(1, 0, 0, 0));
    for t in 1..=12 {
        let description = format!("m{}", t);
        let r = make_transaction(
            &mut ledger,
            1,
            request(1, &description, TransactionType::Credit),
            t,
        );
        assert!(r.is_ok());
    }

    let statement = get_transactions(&ledger, 1).unwrap();
    assert_eq!(statement.saldo.total, 12);
    assert_eq!(statement.transacoes.len(), 10);
    for (pos, expected_t) in (3..=12).rev().enumerate() {
        assert_eq!(statement.transacoes[pos].descricao, format!("m{}", expected_t));
    }
}

#[test]
fn statement_breaks_timestamp_ties_by_id() {
    let mut ledger = Ledger::new();
    assert!(ledger.seed_client(1, 0, 0, 0));
    for name in ["first", "second", "third"] {
        let r = make_transaction(&mut ledger, 1, request(1, name, TransactionType::Credit), 5);
        assert!(r.is_ok());
    }
    let statement = get_transactions(&ledger, 1).unwrap();
    assert_eq!(statement.transacoes.len(), 3);
    assert_eq!(statement.transacoes[0].descricao, "third");
    assert_eq!(statement.transacoes[1].descricao, "second");
    assert_eq!(statement.transacoes[2].descricao, "first");
}

#[test]
fn statement_keeps_accounts_apart() {
    let mut ledger = Ledger::new();
    assert!(ledger.seed_client(1, 0, 0, 0));
    assert!(ledger.seed_client(2, 0, 0, 0));
    let r = make_transaction(&mut ledger, 1, request(3, "mine", TransactionType::Credit), 1);
    assert!(r.is_ok());
    let r = make_transaction(&mut ledger, 2, request(5, "theirs", TransactionType::Credit), 2);
    assert!(r.is_ok());

    let one = get_transactions(&ledger, 1).unwrap();
    assert_eq!(one.saldo.total, 3);
    assert_eq!(one.transacoes.len(), 1);
    assert_eq!(one.transacoes[0].descricao, "mine");

    let two = get_transactions(&ledger, 2).unwrap();
    assert_eq!(two.saldo.total, 5);
    assert_eq!(two.transacoes.len(), 1);
    assert_eq!(two.transacoes[0].descricao, "theirs");
}

#[test]
fn credit_overflow_is_rejected_exactly() {
    let mut ledger = Ledger::new();
    assert!(ledger.seed_client(1, 0, i32::MAX - 1, 0));
    let r = make_transaction(&mut ledger, 1, request(1, "top", TransactionType::Credit), 1);
    assert_eq!(r.unwrap().balance, i32::MAX);

    let r = make_transaction(&mut ledger, 1, request(1, "past", TransactionType::Credit), 2);
    assert_eq!(r.unwrap_err(), LedgerError::LimitExceeded);
    let statement = get_transactions(&ledger, 1).unwrap();
    assert_eq!(statement.saldo.total, i32::MAX);
    assert_eq!(statement.transacoes.len(), 1);
}

#[test]
fn statement_of_account_without_movements() {
    let mut ledger = Ledger::new();
    assert!(ledger.seed_client(1, 100, 0, 0));
    let statement = get_transactions(&ledger, 1).unwrap();
    assert_eq!(statement.saldo.total, 0);
    assert_eq!(statement.saldo.limite, 100);
    assert_eq!(statement.saldo.data_extrato, "1970-01-01T00:00:00.000000Z");
    assert!(statement.transacoes.is_empty());
}

#[test]
fn clock_reading_is_in_admitted_range() {
    let t = balance_ledger::ledger::now_micros();
    assert!(t >= 0);
    assert!(t <= balance_ledger::ledger::MAX_TIMESTAMP_MICROS);
}

#[test]
fn seeding_rules() {
    let mut ledger = Ledger::new();
    assert!(ledger.seed_client(1, 100, -100, 0));
    // Taken id.
    assert!(!ledger.seed_client(1, 50, 0, 0));
    // Negative limit.
    assert!(!ledger.seed_client(2, -1, 0, 0));
    // Balance already past the limit.
    assert!(!ledger.seed_client(2, 10, -11, 0));
    // Timestamp out of range.
    assert!(!ledger.seed_client(2, 10, 0, -1));
    // A sound row is admitted.
    assert!(ledger.seed_client(2, 10, -10, 0));
}
