use vstd::prelude::*;
use vstd::string::StrSliceExecFns;

use crate::errors::ApiError;
use crate::ledger::is_statement;
use crate::ledger::lemma_matching_contains;
use crate::ledger::Ledger;
use crate::ledger::LedgerError;
use crate::ledger::LedgerV;
use crate::ledger::MAX_TIMESTAMP_MICROS;
use crate::models::transaction::views_of;
use crate::models::transaction::MovementV;
use crate::requests::transactions::TransactionRequest;
use crate::responses::client::ClientResponse;
use crate::responses::extrato::renders_movement;
use crate::responses::extrato::rfc3339_micros_of;
use crate::responses::extrato::ExtratoResponse;

verus! {

/// The description length rule on its own, as the movement path applies
/// it: between 1 and 10 characters, counted as characters rather than
/// bytes; anything else is rejected before the store is touched.
pub fn validate_transaction_desc_size(desc: &str) -> (r: Result<bool, ApiError>)
    ensures
        1 <= desc@.len() <= 10 ==> r == Ok::<bool, ApiError>(true),
        !(1 <= desc@.len() <= 10) ==> r == Err::<bool, ApiError>(ApiError::UnprocessableEntity),
{
    let chars = desc.unicode_len();
    if 1 <= chars && chars <= 10 {
        return Ok(true);
    }
    Err(ApiError::unprocessable_entity())
}

/// The movement path: applies one movement to one account and answers with
/// the account's limit and new balance. What is decided — validation first,
/// without store access; then the lookup; then the limit check; then
/// capacity — is exactly `spec_update`'s answer, rendered as a response.
pub fn make_transaction(
    ledger: &mut Ledger,
    id: i32,
    transaction_req: TransactionRequest,
    now: i64,
) -> (r: Result<ClientResponse, LedgerError>)
    requires
        old(ledger)@.wf(),
        0 <= now <= MAX_TIMESTAMP_MICROS,
    ensures
        final(ledger)@.wf(),
        ({
            let step = old(ledger)@.spec_update(
                id,
                transaction_req.amount,
                transaction_req.description@,
                transaction_req.transaction_type,
                now,
            );
            &&& final(ledger)@ == step.0
            &&& (match (r, step.1) {
                (Ok(resp), Ok(c)) => resp.balance == c.balance && resp.balance_limit
                    == c.balance_limit,
                (Err(actual), Err(expected)) => actual == expected,
                _ => false,
            })
        }),
{
    let TransactionRequest { amount, description, transaction_type } = transaction_req;
    match ledger.update_balance(id, amount, description, transaction_type, now) {
        Ok(client) => Ok(ClientResponse::from(client)),
        Err(e) => Err(e),
    }
}

/// The statement path: a consistent snapshot of one account — balance,
/// limit, the account's timestamp text — beside its ten most recent
/// movements, newest first, each rendered unchanged. An unknown account
/// answers `AccountNotFound`; nothing is mutated either way.
pub fn get_transactions(ledger: &Ledger, id: i32) -> (r: Result<ExtratoResponse, LedgerError>)
    requires
        ledger@.wf(),
    ensures
        r is Ok <==> ledger@.has_client(id as int),
        r is Err ==> r == Err::<ExtratoResponse, LedgerError>(LedgerError::AccountNotFound),
        (match r {
            Ok(resp) => {
                &&& resp.saldo.total == ledger@.client(id as int).balance
                &&& resp.saldo.limite == ledger@.client(id as int).balance_limit
                &&& resp.saldo.data_extrato@ == rfc3339_micros_of(
                    ledger@.client(id as int).created_at as int,
                )
                &&& exists|listed: Seq<MovementV>|
                    {
                        &&& #[trigger] is_statement(listed, ledger@.movements_of(id as int))
                        &&& resp.transacoes@.len() == listed.len()
                        &&& (forall|k: int|
                            0 <= k < listed.len() ==> renders_movement(
                                #[trigger] resp.transacoes@[k],
                                listed[k],
                            ))
                    }
            },
            Err(_) => true,
        }),
{
    let extrato = match ledger.find_extrato(id) {
        Err(e) => {
            return Err(e);
        }
        Ok(e) => e,
    };
    proof {
        let idx = ledger@.client_index(id as int);
        assert(LedgerV::client_ok(ledger@.clients[idx]));
        let ghost listed = views_of(extrato.transactions@);
        assert forall|k: int| 0 <= k < listed.len() implies 0 <= (
        #[trigger] listed[k]).created_at <= MAX_TIMESTAMP_MICROS by {
            assert(ledger@.movements_of(id as int).contains(listed[k]));
            lemma_matching_contains(ledger@.movements, id as int, listed[k]);
            let q = choose|q: int|
                0 <= q < ledger@.movements.len() && ledger@.movements[q] == listed[k];
            assert(ledger@.movement_ok(ledger@.movements[q]));
        }
    }
    let resp = ExtratoResponse::from(extrato);
    proof {
        let listed = views_of(extrato.transactions@);
        assert(is_statement(listed, ledger@.movements_of(id as int)));
        assert(resp.transacoes@.len() == listed.len());
    }
    Ok(resp)
}

} // verus!
