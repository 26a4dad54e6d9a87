pub mod transactions;

pub use transactions::TransactionRequest;
pub use transactions::ValidationRule;
