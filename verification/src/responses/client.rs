use vstd::prelude::*;

use crate::models::client::ClientModel;

verus! {

/// The answer to a successful movement: the account's limit and its new
/// balance.
#[derive(Debug, Clone, Copy, PartialEq, Eq, Structural)]
pub struct ClientResponse {
    pub balance_limit: i32,
    pub balance: i32,
}

impl From<ClientModel> for ClientResponse {
    fn from(client: ClientModel) -> (r: Self) {
        Self { balance_limit: client.balance_limit, balance: client.balance }
    }
}

impl vstd::std_specs::convert::FromSpecImpl<ClientModel> for ClientResponse {
    open spec fn obeys_from_spec() -> bool {
        true
    }

    open spec fn from_spec(client: ClientModel) -> Self {
        ClientResponse { balance_limit: client.balance_limit, balance: client.balance }
    }
}

} // verus!
