pub mod client;
pub mod transaction;

pub use client::ClientModel;
pub use client::ExtratoModel;
pub use client::SaldoModel;
pub use transaction::MovementV;
pub use transaction::TransactionModel;
pub use transaction::TransactionType;
