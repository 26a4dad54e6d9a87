pub mod client;
pub mod extrato;

pub use client::ClientResponse;
pub use extrato::ExtratoResponse;
pub use extrato::SaldoResponse;
pub use extrato::TransactionResponse;
