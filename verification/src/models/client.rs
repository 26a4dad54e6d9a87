use vstd::prelude::*;

use crate::errors::ApiError;
use crate::models::transaction::TransactionModel;
use crate::models::transaction::TransactionType;

verus! {

/// One account row. `balance` is the only field the ledger ever mutates;
/// it may go negative down to `-balance_limit` and never further.
/// `created_at` is in microseconds since the Unix epoch.
#[derive(Debug, Clone, Copy, PartialEq, Eq, Structural)]
pub struct ClientModel {
    pub id: i32,
    pub balance_limit: i32,
    pub balance: i32,
    pub created_at: i64,
}

/// The balance part of a statement: current balance, the account's limit,
/// and the timestamp reported with the snapshot.
#[derive(Debug, Clone, Copy, PartialEq, Eq, Structural)]
pub struct SaldoModel {
    pub balance: i32,
    pub balance_limit: i32,
    pub date: i64,
}

/// A statement snapshot: the balance part plus the most recent movements,
/// newest first.
#[derive(Debug)]
pub struct ExtratoModel {
    pub saldo: SaldoModel,
    pub transactions: Vec<TransactionModel>,
}

impl From<(ClientModel, Vec<TransactionModel>)> for ExtratoModel {
    fn from(pair: (ClientModel, Vec<TransactionModel>)) -> (r: Self) {
        let (client, transactions) = pair;
        let saldo = SaldoModel {
            balance: client.balance,
            balance_limit: client.balance_limit,
            date: client.created_at,
        };

        Self { saldo, transactions }
    }
}

impl vstd::std_specs::convert::FromSpecImpl<(ClientModel, Vec<TransactionModel>)> for ExtratoModel {
    open spec fn obeys_from_spec() -> bool {
        true
    }

    open spec fn from_spec(pair: (ClientModel, Vec<TransactionModel>)) -> Self {
        ExtratoModel {
            saldo: SaldoModel {
                balance: pair.0.balance,
                balance_limit: pair.0.balance_limit,
                date: pair.0.created_at,
            },
            transactions: pair.1,
        }
    }
}

/// The balance step of an update: the candidate new balance after applying
/// one movement of magnitude `amount` to `balance`, or the rejection.
///
/// A debit whose candidate balance would pass below `-balance_limit` is
/// rejected, and so is a credit whose candidate balance the balance type
/// cannot represent; both come back as `UnprocessableEntity`. Nothing is
/// ever wrapped: the arithmetic is exact.
pub fn validate_transaction_balance(
    balance: i32,
    amount: u32,
    balance_limit: i32,
    transaction_type: &TransactionType,
) -> (r: Result<i32, ApiError>)
    ensures
        *transaction_type == TransactionType::Debit ==> (
            if balance - amount >= -(balance_limit as int) {
                r == Ok::<i32, ApiError>((balance - amount) as i32)
            } else {
                r == Err::<i32, ApiError>(ApiError::UnprocessableEntity)
            }
        ),
        *transaction_type == TransactionType::Credit ==> (
            if balance + amount <= i32::MAX {
                r == Ok::<i32, ApiError>((balance + amount) as i32)
            } else {
                r == Err::<i32, ApiError>(ApiError::UnprocessableEntity)
            }
        ),
{
    match transaction_type {
        TransactionType::Debit => {
            let new_balance: i64 = balance as i64 - amount as i64;
            if new_balance < -(balance_limit as i64) {
                Err(ApiError::unprocessable_entity())
            } else {
                Ok(new_balance as i32)
            }
        }
        TransactionType::Credit => {
            let new_balance: i64 = balance as i64 + amount as i64;
            if new_balance > i32::MAX as i64 {
                Err(ApiError::unprocessable_entity())
            } else {
                Ok(new_balance as i32)
            }
        }
    }
}

} // verus!
