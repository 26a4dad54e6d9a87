use vstd::prelude::*;
use vstd::string::StringExecFns;

use crate::ledger::MAX_TIMESTAMP_MICROS;
use crate::models::client::ExtratoModel;
use crate::models::transaction::views_of;
use crate::models::transaction::MovementV;
use crate::models::transaction::TransactionType;

verus! {

/// The text that the renderer produces for a timestamp in microseconds
/// since the Unix epoch: RFC 3339 with microsecond precision and a `Z`
/// offset. The text depends on the timestamp alone.
pub uninterp spec fn rfc3339_micros_of(t: int) -> Seq<char>;

/// Relies on chrono's `DateTime::<Utc>::from_timestamp_micros`, which is
/// defined everywhere in the admitted range, and on
/// `DateTime::to_rfc3339_opts` with microsecond seconds and a `Z` suffix,
/// whose output is a function of the timestamp alone.
#[verifier::external_body]
fn format_rfc3339_micros(t: i64) -> (r: String)
    requires
        0 <= t <= MAX_TIMESTAMP_MICROS,
    ensures
        r@ == rfc3339_micros_of(t as int),
{
    let datetime = chrono::DateTime::<chrono::Utc>::from_timestamp_micros(t)
        .expect("timestamps in the admitted range are representable");
    datetime.to_rfc3339_opts(chrono::SecondsFormat::Micros, true)
}

/// The balance part of a rendered statement: the current total, the
/// account's limit, and the statement's timestamp text.
#[derive(Debug)]
pub struct SaldoResponse {
    pub total: i32,
    pub limite: i32,
    pub data_extrato: String,
}

/// One rendered movement: magnitude, one-letter kind, description, and the
/// recording timestamp's text.
#[derive(Debug)]
pub struct TransactionResponse {
    pub valor: i32,
    pub tipo: String,
    pub descricao: String,
    pub realizada_em: String,
}

/// A rendered statement: the balance part and the listed movements, in the
/// order the statement gave them.
#[derive(Debug)]
pub struct ExtratoResponse {
    pub saldo: SaldoResponse,
    pub transacoes: Vec<TransactionResponse>,
}

/// Whether one rendered movement shows exactly one stored movement.
pub open spec fn renders_movement(r: TransactionResponse, m: MovementV) -> bool {
    &&& r.valor == m.amount
    &&& r.tipo@ == (match m.kind {
        TransactionType::Debit => "d"@,
        TransactionType::Credit => "c"@,
    })
    &&& r.descricao@ == m.description
    &&& r.realizada_em@ == rfc3339_micros_of(m.created_at)
}

impl ExtratoResponse {
    /// Renders a statement snapshot: the balance part with its timestamp
    /// text, and each movement in the order given, unchanged but for the
    /// rendering of kind and timestamp.
    pub fn from(extrato: ExtratoModel) -> (r: Self)
        requires
            0 <= extrato.saldo.date <= MAX_TIMESTAMP_MICROS,
            forall|k: int|
                0 <= k < extrato.transactions@.len() ==> 0 <= (#[trigger] views_of(
                    extrato.transactions@,
                )[k]).created_at <= MAX_TIMESTAMP_MICROS,
        ensures
            r.saldo.total == extrato.saldo.balance,
            r.saldo.limite == extrato.saldo.balance_limit,
            r.saldo.data_extrato@ == rfc3339_micros_of(extrato.saldo.date as int),
            r.transacoes@.len() == extrato.transactions@.len(),
            forall|k: int|
                0 <= k < extrato.transactions@.len() ==> renders_movement(
                    #[trigger] r.transacoes@[k],
                    views_of(extrato.transactions@)[k],
                ),
    {
        let ExtratoModel { saldo, transactions } = extrato;
        let data_extrato = format_rfc3339_micros(saldo.date);
        let n = transactions.len();
        let mut transacoes: Vec<TransactionResponse> = Vec::new();
        let mut k: usize = 0;
        while k < n
            invariant
                k <= n,
                n == transactions@.len(),
                forall|q: int|
                    0 <= q < transactions@.len() ==> 0 <= (#[trigger] views_of(
                        transactions@,
                    )[q]).created_at <= MAX_TIMESTAMP_MICROS,
                transacoes@.len() == k,
                forall|q: int|
                    0 <= q < k ==> renders_movement(
                        #[trigger] transacoes@[q],
                        views_of(transactions@)[q],
                    ),
            decreases n - k,
        {
            let t = &transactions[k];
            proof {
                assert(views_of(transactions@)[k as int] == t@);
            }
            let rendered = TransactionResponse {
                valor: t.amount,
                tipo: String::from_str(t.kind.as_str()),
                descricao: t.description.clone(),
                realizada_em: format_rfc3339_micros(t.created_at),
            };
            transacoes.push(rendered);
            k += 1;
        }
        ExtratoResponse {
            saldo: SaldoResponse { total: saldo.balance, limite: saldo.balance_limit, data_extrato },
            transacoes,
        }
    }
}

} // verus!
