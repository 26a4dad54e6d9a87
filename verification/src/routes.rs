pub mod transactions;

pub use transactions::get_transactions;
pub use transactions::make_transaction;
pub use transactions::validate_transaction_desc_size;
