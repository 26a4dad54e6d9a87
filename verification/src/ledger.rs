use vstd::prelude::*;

use crate::errors::ApiError;
use crate::models::client::ClientModel;
use crate::models::client::ExtratoModel;
use crate::models::client::SaldoModel;
use crate::models::transaction::views_of;
use crate::models::transaction::MovementV;
use crate::models::transaction::TransactionModel;
use crate::models::transaction::TransactionType;
use crate::requests::transactions::spec_validate;
use crate::requests::transactions::ValidationRule;

verus! {

/// The latest timestamp the store admits, in microseconds since the Unix
/// epoch: the last microsecond of year 9999, which the statement renderer
/// can always format.
pub const MAX_TIMESTAMP_MICROS: i64 = 253402300799999999;

/// Relies on std's `SystemTime::now` for the current time, read as
/// microseconds since the Unix epoch. A clock set before the epoch reads
/// as zero and a reading past `i64` saturates, so no clock state panics.
/// Nothing is promised of the clock's value.
#[verifier::external_body]
fn current_micros() -> i64 {
    match std::time::SystemTime::now().duration_since(std::time::UNIX_EPOCH) {
        Ok(elapsed) => i64::try_from(elapsed.as_micros()).unwrap_or(i64::MAX),
        Err(_) => 0,
    }
}

/// The clock reading used to stamp movements, forced into the store's
/// admitted range whatever the clock returned.
pub fn now_micros() -> (t: i64)
    ensures
        0 <= t <= MAX_TIMESTAMP_MICROS,
{
    let raw = current_micros();
    if raw < 0 {
        0
    } else if raw > MAX_TIMESTAMP_MICROS {
        MAX_TIMESTAMP_MICROS
    } else {
        raw
    }
}

/// How a movement request fails. Every failure aborts the whole operation
/// with no partial effect.
#[derive(Debug, Clone, Copy, PartialEq, Eq, Structural)]
pub enum LedgerError {
    /// The account does not exist; terminal for this account id.
    AccountNotFound,
    /// A structural rule rejected the request before the store was read.
    ValidationFailed(ValidationRule),
    /// The candidate balance would pass below `-overdraft_limit`, or could
    /// not be represented in the balance type; the movement is rejected and
    /// nothing changes.
    LimitExceeded,
    /// The store cannot record another movement: the movement-id space is
    /// exhausted. Surfaced, never swallowed, and never partial.
    StorageFault,
}

impl LedgerError {
    /// The boundary classification of this failure: an unknown account maps
    /// to `NotFound`, a rejected request to `UnprocessableEntity`, and an
    /// internal fault to `InternalServerError`.
    pub fn to_api_error(&self) -> (r: ApiError)
        ensures
            r == (match self {
                LedgerError::AccountNotFound => ApiError::NotFound,
                LedgerError::ValidationFailed(_) => ApiError::UnprocessableEntity,
                LedgerError::LimitExceeded => ApiError::UnprocessableEntity,
                LedgerError::StorageFault => ApiError::InternalServerError,
            }),
    {
        match self {
            LedgerError::AccountNotFound => ApiError::not_found(),
            LedgerError::ValidationFailed(_) => ApiError::unprocessable_entity(),
            LedgerError::LimitExceeded => ApiError::unprocessable_entity(),
            LedgerError::StorageFault => ApiError::internal_server_error(),
        }
    }
}

/// The mathematical value of the whole store: the account rows and the
/// movement rows, each in order of recording.
#[verifier::ext_equal]
pub struct LedgerV {
    pub clients: Seq<ClientModel>,
    pub movements: Seq<MovementV>,
}

/// The movements among `ms` that belong to the account `id`, in their
/// stored order.
pub open spec fn matching(ms: Seq<MovementV>, id: int) -> Seq<MovementV>
    decreases ms.len(),
{
    if ms.len() == 0 {
        Seq::empty()
    } else {
        let rest = matching(ms.drop_last(), id);
        if ms.last().client_id == id {
            rest.push(ms.last())
        } else {
            rest
        }
    }
}

/// Whether movement `a` comes strictly earlier than `b` in statement
/// order: by timestamp, ties broken by movement id.
pub open spec fn movement_older(a: MovementV, b: MovementV) -> bool {
    a.created_at < b.created_at || (a.created_at == b.created_at && a.id < b.id)
}

impl LedgerV {
    /// Whether some account carries this id.
    pub open spec fn has_client(self, id: int) -> bool {
        exists|i: int| 0 <= i < self.clients.len() && self.clients[i].id == id
    }

    /// The position of the account that carries this id.
    pub open spec fn client_index(self, id: int) -> int {
        choose|i: int| 0 <= i < self.clients.len() && self.clients[i].id == id
    }

    /// The account row that carries this id.
    pub open spec fn client(self, id: int) -> ClientModel {
        self.clients[self.client_index(id)]
    }

    /// The stored movements of one account, in order of recording.
    pub open spec fn movements_of(self, id: int) -> Seq<MovementV> {
        matching(self.movements, id)
    }

    /// What every account row obeys at rest: a non-negative limit, a
    /// balance no lower than `-limit`, and a representable timestamp.
    pub open spec fn client_ok(c: ClientModel) -> bool {
        &&& 0 <= c.balance_limit
        &&& -(c.balance_limit as int) <= c.balance as int
        &&& 0 <= c.created_at <= MAX_TIMESTAMP_MICROS
    }

    /// What every movement row obeys at rest: a positive representable
    /// amount, a description of 1 to 10 characters, a representable
    /// timestamp, and an owning account that exists.
    pub open spec fn movement_ok(self, m: MovementV) -> bool {
        &&& 1 <= m.amount <= i32::MAX
        &&& 1 <= m.description.len() <= 10
        &&& 0 <= m.created_at <= MAX_TIMESTAMP_MICROS
        &&& self.has_client(m.client_id)
    }

    /// The store's invariant: well-formed account rows with unique ids, and
    /// well-formed movement rows whose ids are exactly their position in
    /// recording order, starting from one.
    pub open spec fn wf(self) -> bool {
        &&& forall|i: int| 0 <= i < self.clients.len() ==> Self::client_ok(#[trigger] self.clients[i])
        &&& forall|i: int, j: int|
            0 <= i < j < self.clients.len() ==> (#[trigger] self.clients[i]).id != (
            #[trigger] self.clients[j]).id
        &&& forall|k: int| 0 <= k < self.movements.len() ==> (#[trigger] self.movements[k]).id == k
            + 1
        &&& forall|k: int| 0 <= k < self.movements.len() ==> self.movement_ok(
            #[trigger] self.movements[k],
        )
    }

    /// One atomic update as a mathematical transition: the state it leaves
    /// and the answer it returns. Validation is decided first, before the
    /// store is read; then the account lookup; then the balance check
    /// against the limit; then the capacity of the movement-id space. On
    /// success the new balance is persisted and the matching movement is
    /// appended in the same step; on any failure the state is unchanged.
    pub open spec fn spec_update(
        self,
        id: i32,
        amount: u32,
        description: Seq<char>,
        transaction_type: TransactionType,
        now: i64,
    ) -> (LedgerV, Result<ClientModel, LedgerError>) {
        match spec_validate(amount, description) {
            Err(rule) => (self, Err(LedgerError::ValidationFailed(rule))),
            Ok(_) => if !self.has_client(id as int) {
                (self, Err(LedgerError::AccountNotFound))
            } else {
                let i = self.client_index(id as int);
                let c = self.clients[i];
                let candidate: int = if transaction_type == TransactionType::Debit {
                    c.balance - amount
                } else {
                    c.balance + amount
                };
                if candidate < -(c.balance_limit as int) || candidate > i32::MAX {
                    (self, Err(LedgerError::LimitExceeded))
                } else if self.movements.len() >= i32::MAX {
                    (self, Err(LedgerError::StorageFault))
                } else {
                    let updated = ClientModel {
                        id: c.id,
                        balance_limit: c.balance_limit,
                        balance: candidate as i32,
                        created_at: c.created_at,
                    };
                    let m = MovementV {
                        id: self.movements.len() as int + 1,
                        client_id: id as int,
                        amount: amount as int,
                        description: description,
                        kind: transaction_type,
                        created_at: now as int,
                    };
                    (
                        LedgerV {
                            clients: self.clients.update(i, updated),
                            movements: self.movements.push(m),
                        },
                        Ok(updated),
                    )
                }
            },
        }
    }
}

/// What the statement's movement list must be: up to ten of the account's
/// movements, newest first in the (timestamp, id) order, such that every
/// movement of the account left off the list is strictly older than
/// everything listed.
pub open spec fn is_statement(listed: Seq<MovementV>, all: Seq<MovementV>) -> bool {
    &&& listed.len() == (if all.len() <= 10 {
        all.len() as int
    } else {
        10int
    })
    &&& (forall|a: int, b: int|
        0 <= a < b < listed.len() ==> movement_older(#[trigger] listed[b], #[trigger] listed[a]))
    &&& (forall|a: int| 0 <= a < listed.len() ==> all.contains(#[trigger] listed[a]))
    &&& (forall|k: int|
        0 <= k < all.len() ==> listed.contains(#[trigger] all[k]) || (forall|a: int|
            0 <= a < listed.len() ==> movement_older(all[k], #[trigger] listed[a])))
}

/// Statement order is transitive.
pub proof fn lemma_movement_older_trans(a: MovementV, b: MovementV, c: MovementV)
    requires
        movement_older(a, b),
        movement_older(b, c),
    ensures
        movement_older(a, c),
{
}

/// Any two positions can hold the account id only together; with the
/// invariant's uniqueness, a position whose row carries the id is the
/// position the lookup names.
pub proof fn lemma_client_index_is(lv: LedgerV, id: int, j: int)
    requires
        lv.wf(),
        0 <= j < lv.clients.len(),
        lv.clients[j].id == id,
    ensures
        lv.has_client(id),
        lv.client_index(id) == j,
        lv.client(id) == lv.clients[j],
{
    assert(lv.has_client(id));
    let i = lv.client_index(id);
    if i != j {
        if i < j {
            assert(lv.clients[i].id != lv.clients[j].id);
        } else {
            assert(lv.clients[j].id != lv.clients[i].id);
        }
    }
}

/// The overdraft invariant survives every update: whatever the request,
/// the state an update leaves is well formed, and in particular every
/// account's balance still sits at or above `-overdraft_limit`.
pub proof fn lemma_update_preserves_invariant(
    lv: LedgerV,
    id: i32,
    amount: u32,
    description: Seq<char>,
    transaction_type: TransactionType,
    now: i64,
)
    requires
        lv.wf(),
        0 <= now <= MAX_TIMESTAMP_MICROS,
    ensures
        lv.spec_update(id, amount, description, transaction_type, now).0.wf(),
        forall|i: int|
            0 <= i < lv.spec_update(id, amount, description, transaction_type, now).0.clients.len()
                ==> -((#[trigger] lv.spec_update(
                id,
                amount,
                description,
                transaction_type,
                now,
            ).0.clients[i]).balance_limit as int) <= lv.spec_update(
                id,
                amount,
                description,
                transaction_type,
                now,
            ).0.clients[i].balance as int,
{
    let step = lv.spec_update(id, amount, description, transaction_type, now);
    let next = step.0;
    if step.1 is Ok {
        let i = lv.client_index(id as int);
        assert(lv.has_client(id as int));
        assert(0 <= i < lv.clients.len() && lv.clients[i].id == id);
        assert forall|k: int| 0 <= k < next.clients.len() implies LedgerV::client_ok(
            #[trigger] next.clients[k],
        ) by {
            assert(LedgerV::client_ok(lv.clients[k]));
        }
        assert forall|k: int| 0 <= k < next.movements.len() implies next.movement_ok(
            #[trigger] next.movements[k],
        ) by {
            if k < lv.movements.len() {
                assert(lv.movement_ok(lv.movements[k]));
                let ci = choose|ci: int|
                    0 <= ci < lv.clients.len() && lv.clients[ci].id == lv.movements[k].client_id;
                assert(next.clients[ci].id == lv.clients[ci].id);
                assert(next.has_client(next.movements[k].client_id));
            } else {
                assert(next.movements[k].client_id == id as int);
                assert(next.clients[i].id == id);
                assert(next.has_client(id as int));
            }
        }
    }
}

/// A rejected request changes nothing: whenever an update answers with any
/// error, the state it leaves is exactly the state it found — same
/// balances, same movement rows, same movement count.
pub proof fn lemma_rejection_changes_nothing(
    lv: LedgerV,
    id: i32,
    amount: u32,
    description: Seq<char>,
    transaction_type: TransactionType,
    now: i64,
)
    ensures
        lv.spec_update(id, amount, description, transaction_type, now).1 is Err ==> lv.spec_update(
            id,
            amount,
            description,
            transaction_type,
            now,
        ).0 == lv,
{
}

/// An unknown account rejects every well-formed movement with
/// `AccountNotFound`, and the store is left exactly as it was.
pub proof fn lemma_unknown_account_rejected(
    lv: LedgerV,
    id: i32,
    amount: u32,
    description: Seq<char>,
    transaction_type: TransactionType,
    now: i64,
)
    requires
        !lv.has_client(id as int),
        spec_validate(amount, description) is Ok,
    ensures
        ({
            let step = lv.spec_update(id, amount, description, transaction_type, now);
            step.1 == Err::<ClientModel, LedgerError>(LedgerError::AccountNotFound) && step.0 == lv
        }),
{
}

/// A debit whose candidate balance would pass below `-overdraft_limit` is
/// rejected with `LimitExceeded`, and the store is left exactly as it was:
/// the account's balance and the movement rows are unchanged.
pub proof fn lemma_debit_past_limit_rejected(
    lv: LedgerV,
    id: i32,
    amount: u32,
    description: Seq<char>,
    now: i64,
)
    requires
        lv.has_client(id as int),
        spec_validate(amount, description) is Ok,
        lv.client(id as int).balance - amount < -(lv.client(id as int).balance_limit as int),
    ensures
        ({
            let step = lv.spec_update(id, amount, description, TransactionType::Debit, now);
            step.1 == Err::<ClientModel, LedgerError>(LedgerError::LimitExceeded) && step.0 == lv
        }),
{
}

/// A well-formed movement whose candidate balance stays at or above
/// `-overdraft_limit` and representable succeeds, while the movement-id
/// space lasts: the answer carries the account's limit and the balance
/// moved by exactly the amount, the stored balance is that new balance,
/// and exactly one movement — the account's own — is recorded with it.
pub proof fn lemma_admitted_movement_applies(
    lv: LedgerV,
    id: i32,
    amount: u32,
    description: Seq<char>,
    transaction_type: TransactionType,
    now: i64,
)
    requires
        lv.wf(),
        lv.has_client(id as int),
        spec_validate(amount, description) is Ok,
        0 <= now <= MAX_TIMESTAMP_MICROS,
        lv.movements.len() < i32::MAX,
        ({
            let candidate: int = if transaction_type == TransactionType::Debit {
                lv.client(id as int).balance - amount
            } else {
                lv.client(id as int).balance + amount
            };
            -(lv.client(id as int).balance_limit as int) <= candidate <= i32::MAX
        }),
    ensures
        ({
            let step = lv.spec_update(id, amount, description, transaction_type, now);
            let candidate: int = if transaction_type == TransactionType::Debit {
                lv.client(id as int).balance - amount
            } else {
                lv.client(id as int).balance + amount
            };
            match step.1 {
                Err(_) => false,
                Ok(c) => {
                    &&& c.id == id
                    &&& c.balance == candidate
                    &&& c.balance_limit == lv.client(id as int).balance_limit
                    &&& step.0.client(id as int) == c
                    &&& step.0.movements.len() == lv.movements.len() + 1
                    &&& step.0.movements_of(id as int).len() == lv.movements_of(id as int).len()
                        + 1
                },
            }
        }),
{
    let i = lv.client_index(id as int);
    assert(0 <= i < lv.clients.len() && lv.clients[i].id == id);
    lemma_update_preserves_invariant(lv, id, amount, description, transaction_type, now);
    let step = lv.spec_update(id, amount, description, transaction_type, now);
    assert(step.1 is Ok);
    lemma_client_index_is(step.0, id as int, i);
    let m = MovementV {
        id: lv.movements.len() as int + 1,
        client_id: id as int,
        amount: amount as int,
        description: description,
        kind: transaction_type,
        created_at: now as int,
    };
    assert(step.0.movements =~= lv.movements.push(m));
    assert(lv.movements.push(m).drop_last() =~= lv.movements);
    assert(step.0.movements_of(id as int) == lv.movements_of(id as int).push(m));
}

/// The ledger store: the account rows and the movement rows it owns.
///
/// Accounts are provisioned out-of-band through `seed_client`; the request
/// paths only read them or move their balance. Movements are appended by
/// successful updates and never changed again.
#[derive(Debug)]
pub struct Ledger {
    clients: Vec<ClientModel>,
    transactions: Vec<TransactionModel>,
}

impl View for Ledger {
    type V = LedgerV;

    closed spec fn view(&self) -> LedgerV {
        LedgerV { clients: self.clients@, movements: views_of(self.transactions@) }
    }
}

impl Ledger {
    /// An empty store: no accounts, no movements.
    pub fn new() -> (l: Ledger)
        ensures
            l@.wf(),
            l@.clients.len() == 0,
            l@.movements.len() == 0,
    {
        Ledger { clients: Vec::new(), transactions: Vec::new() }
    }

    /// The number of movement rows the store holds, over all accounts.
    pub fn transaction_count(&self) -> (n: usize)
        ensures
            n == self@.movements.len(),
    {
        self.transactions.len()
    }

    /// The position of the account row that carries `id`, if any.
    fn find_client(&self, id: i32) -> (r: Option<usize>)
        ensures
            (match r {
                Some(j) => j < self.clients@.len() && self.clients@[j as int].id == id,
                None => !self@.has_client(id as int),
            }),
    {
        let n = self.clients.len();
        let mut i: usize = 0;
        while i < n
            invariant
                i <= n,
                n == self.clients@.len(),
                forall|k: int| 0 <= k < i ==> (#[trigger] self.clients@[k]).id != id,
            decreases n - i,
        {
            if self.clients[i].id == id {
                return Some(i);
            }
            i += 1;
        }
        None
    }

    /// Provisions one account row. The request paths never create accounts;
    /// rows enter here, out-of-band. The row is admitted only when its id is
    /// free, its limit non-negative, its balance at or above `-limit`, and
    /// its timestamp in the store's range; otherwise nothing changes.
    pub fn seed_client(
        &mut self,
        id: i32,
        balance_limit: i32,
        balance: i32,
        created_at: i64,
    ) -> (admitted: bool)
        requires
            old(self)@.wf(),
        ensures
            final(self)@.wf(),
            admitted == (!old(self)@.has_client(id as int) && 0 <= balance_limit && -(
            balance_limit as int) <= balance as int && 0 <= created_at <= MAX_TIMESTAMP_MICROS),
            admitted ==> final(self)@ == (LedgerV {
                clients: old(self)@.clients.push(
                    ClientModel { id, balance_limit, balance, created_at },
                ),
                movements: old(self)@.movements,
            }),
            !admitted ==> final(self)@ == old(self)@,
    {
        if balance_limit < 0 || created_at < 0 || created_at > MAX_TIMESTAMP_MICROS {
            return false;
        }
        if (balance as i64) < -(balance_limit as i64) {
            return false;
        }
        match self.find_client(id) {
            Some(_) => false,
            None => {
                let row = ClientModel { id, balance_limit, balance, created_at };
                self.clients.push(row);
                proof {
                    assert(self@ =~= (LedgerV {
                        clients: old(self)@.clients.push(row),
                        movements: old(self)@.movements,
                    }));
                    assert forall|k: int|
                        0 <= k < self@.movements.len() implies self@.movement_ok(
                        #[trigger] self@.movements[k],
                    ) by {
                        assert(old(self)@.movement_ok(old(self)@.movements[k]));
                        let ci = choose|ci: int|
                            0 <= ci < old(self)@.clients.len() && old(self)@.clients[ci].id == old(
                                self,
                            )@.movements[k].client_id;
                        assert(self@.clients[ci].id == old(self)@.clients[ci].id);
                    }
                }
                true
            }
        }
    }

    /// Applies one movement to one account as a single indivisible step,
    /// exactly as `spec_update` says: validation first (no store access on
    /// a malformed request), then the lookup, then the balance check under
    /// the account's limit, then the capacity of the movement-id space. On
    /// success the new balance and the matching movement row are recorded
    /// together and the updated account row is returned; on any failure the
    /// store is left exactly as it was.
    pub fn update_balance(
        &mut self,
        id: i32,
        transaction_amount: u32,
        description: String,
        transaction_type: TransactionType,
        now: i64,
    ) -> (r: Result<ClientModel, LedgerError>)
        requires
            old(self)@.wf(),
            0 <= now <= MAX_TIMESTAMP_MICROS,
        ensures
            final(self)@.wf(),
            ({
                let step = old(self)@.spec_update(
                    id,
                    transaction_amount,
                    description@,
                    transaction_type,
                    now,
                );
                final(self)@ == step.0 && r == step.1
            }),
    {
        proof {
            lemma_update_preserves_invariant(
                old(self)@,
                id,
                transaction_amount,
                description@,
                transaction_type,
                now,
            );
        }
        if let Err(rule) = crate::requests::transactions::validate_movement(
            transaction_amount,
            description.as_str(),
        ) {
            return Err(LedgerError::ValidationFailed(rule));
        }
        let j = match self.find_client(id) {
            None => {
                return Err(LedgerError::AccountNotFound);
            }
            Some(j) => j,
        };
        proof {
            lemma_client_index_is(self@, id as int, j as int);
        }
        let c = self.clients[j];
        let new_balance = match crate::models::client::validate_transaction_balance(
            c.balance,
            transaction_amount,
            c.balance_limit,
            &transaction_type,
        ) {
            Err(_) => {
                return Err(LedgerError::LimitExceeded);
            }
            Ok(nb) => nb,
        };
        let count = self.transactions.len();
        if count >= i32::MAX as usize {
            return Err(LedgerError::StorageFault);
        }
        let updated = ClientModel {
            id: c.id,
            balance_limit: c.balance_limit,
            balance: new_balance,
            created_at: c.created_at,
        };
        self.clients.set(j, updated);
        let row = TransactionModel {
            id: count as i32 + 1,
            client_id: id,
            amount: transaction_amount as i32,
            description,
            kind: transaction_type,
            created_at: now,
        };
        self.transactions.push(row);
        proof {
            let step = old(self)@.spec_update(
                id,
                transaction_amount,
                description@,
                transaction_type,
                now,
            );
            assert(self@.movements =~~= step.0.movements);
            assert(self@ =~~= step.0);
        }
        Ok(updated)
    }

    /// A consistent snapshot of one account: its current balance and limit
    /// beside its ten most recent movements, newest first, ties broken by
    /// movement id. Nothing is mutated, so the snapshot can only show
    /// states that completed updates have produced: never a balance
    /// without its movement, nor a movement without its balance.
    pub fn find_extrato(&self, id: i32) -> (r: Result<ExtratoModel, LedgerError>)
        requires
            self@.wf(),
        ensures
            r is Ok <==> self@.has_client(id as int),
            r is Err ==> r == Err::<ExtratoModel, LedgerError>(LedgerError::AccountNotFound),
            (match r {
                Ok(e) => {
                    &&& e.saldo.balance == self@.client(id as int).balance
                    &&& e.saldo.balance_limit == self@.client(id as int).balance_limit
                    &&& e.saldo.date == self@.client(id as int).created_at
                    &&& is_statement(views_of(e.transactions@), self@.movements_of(id as int))
                },
                Err(_) => true,
            }),
    {
        let j = match self.find_client(id) {
            None => {
                return Err(LedgerError::AccountNotFound);
            }
            Some(j) => j,
        };
        proof {
            lemma_client_index_is(self@, id as int, j as int);
        }
        let c = self.clients[j];
        let saldo = SaldoModel {
            balance: c.balance,
            balance_limit: c.balance_limit,
            date: c.created_at,
        };
        let kept = self.movements_for(id);
        let best = select_latest_ten(&kept);
        Ok(ExtratoModel { saldo, transactions: best })
    }

    /// The stored movement rows of one account, in recording order; their
    /// ids rise strictly with their position.
    fn movements_for(&self, id: i32) -> (kept: Vec<TransactionModel>)
        requires
            self@.wf(),
        ensures
            views_of(kept@) == self@.movements_of(id as int),
            forall|a: int, b: int|
                0 <= a < b < kept@.len() ==> views_of(kept@)[a].id < views_of(kept@)[b].id,
    {
        let n = self.transactions.len();
        let mut kept: Vec<TransactionModel> = Vec::new();
        let mut k: usize = 0;
        while k < n
            invariant
                k <= n,
                n == self@.movements.len(),
                self@.wf(),
                views_of(kept@) == matching(self@.movements.take(k as int), id as int),
                forall|a: int, b: int|
                    0 <= a < b < kept@.len() ==> views_of(kept@)[a].id < views_of(kept@)[b].id,
                forall|a: int| 0 <= a < kept@.len() ==> views_of(kept@)[a].id <= k,
            decreases n - k,
        {
            let ghost prefix = self@.movements.take(k as int);
            let ghost m = self@.movements[k as int];
            proof {
                assert(self@.movements.take(k as int + 1) =~= prefix.push(m));
                assert(self@.movements[k as int].id == k + 1);
            }
            let t = &self.transactions[k];
            assert(t@ == m);
            if t.client_id == id {
                let ghost kept0 = kept@;
                let dup = t.duplicate();
                kept.push(dup);
                proof {
                    assert(views_of(kept@) =~= views_of(kept0).push(m));
                    assert(m.client_id == id as int);
                    assert(prefix.push(m).drop_last() =~= prefix);
                    assert(matching(prefix.push(m), id as int) == matching(prefix, id as int).push(
                        m,
                    ));
                    assert(matching(self@.movements.take(k as int + 1), id as int) == matching(
                        prefix.push(m),
                        id as int,
                    ));
                }
            } else {
                proof {
                    assert(m.client_id != id as int);
                    assert(prefix.push(m).drop_last() =~= prefix);
                    assert(matching(prefix.push(m), id as int) == matching(prefix, id as int));
                    assert(matching(self@.movements.take(k as int + 1), id as int) == matching(
                        prefix.push(m),
                        id as int,
                    ));
                }
            }
            k += 1;
        }
        proof {
            assert(self@.movements.take(n as int) =~= self@.movements);
        }
        kept
    }
}

/// Whether the stored row `a` comes strictly earlier than `b` in statement
/// order.
fn row_older(a: &TransactionModel, b: &TransactionModel) -> (r: bool)
    ensures
        r == movement_older(a@, b@),
{
    a.created_at < b.created_at || (a.created_at == b.created_at && a.id < b.id)
}

/// The position where `x` belongs in a list sorted newest first: the first
/// position holding a strictly older row, or the end.
fn insert_position(best: &Vec<TransactionModel>, x: &TransactionModel) -> (p: usize)
    ensures
        p <= best@.len(),
        forall|a: int| 0 <= a < p ==> !movement_older(views_of(best@)[a], x@),
        p < best@.len() ==> movement_older(views_of(best@)[p as int], x@),
{
    let n = best.len();
    let mut p: usize = 0;
    while p < n
        invariant
            p <= n,
            n == best@.len(),
            forall|a: int| 0 <= a < p ==> !movement_older(views_of(best@)[a], x@),
        decreases n - p,
    {
        if row_older(&best[p], x) {
            return p;
        }
        p += 1;
    }
    p
}

/// The ten latest rows among `kept` (all of them, when there are fewer),
/// newest first in the (timestamp, id) order. `kept` must hold strictly
/// rising ids, as the rows of one account do.
#[verifier::rlimit(100)]
fn select_latest_ten(kept: &Vec<TransactionModel>) -> (best: Vec<TransactionModel>)
    requires
        forall|a: int, b: int|
            0 <= a < b < kept@.len() ==> views_of(kept@)[a].id < views_of(kept@)[b].id,
    ensures
        is_statement(views_of(best@), views_of(kept@)),
{
    let m = kept.len();
    let mut best: Vec<TransactionModel> = Vec::new();
    let mut i: usize = 0;
    while i < m
        invariant
            i <= m,
            m == kept@.len(),
            forall|a: int, b: int|
                0 <= a < b < kept@.len() ==> views_of(kept@)[a].id < views_of(kept@)[b].id,
            best@.len() == (if i <= 10 {
                i as int
            } else {
                10int
            }),
            forall|a: int, b: int|
                0 <= a < b < best@.len() ==> movement_older(
                    views_of(best@)[b],
                    views_of(best@)[a],
                ),
            forall|a: int|
                0 <= a < best@.len() ==> views_of(kept@).take(i as int).contains(
                    #[trigger] views_of(best@)[a],
                ),
            forall|jj: int|
                0 <= jj < i ==> views_of(best@).contains(#[trigger] views_of(kept@)[jj]) || (
                best@.len() == 10 && movement_older(views_of(kept@)[jj], views_of(best@)[9])),
        decreases m - i,
    {
        let ghost csv = views_of(kept@);
        let ghost best0 = views_of(best@);
        let x = kept[i].duplicate();
        let ghost xv = x@;
        proof {
            assert(xv == csv[i as int]);
            assert forall|a: int| 0 <= a < best0.len() implies best0[a].id < xv.id by {
                assert(csv.take(i as int).contains(best0[a]));
                let jj = choose|jj: int|
                    0 <= jj < csv.take(i as int).len() && csv.take(i as int)[jj] == best0[a];
                assert(csv[jj] == best0[a]);
                assert(csv[jj].id < csv[i as int].id);
            }
        }
        let p = insert_position(&best, &x);
        proof {
            assert forall|a: int| 0 <= a < p implies movement_older(xv, best0[a]) by {
                assert(!movement_older(best0[a], xv));
                assert(best0[a].id < xv.id);
            }
        }
        if p < best.len() || best.len() < 10 {
            let ghost l0 = best0.len();
            best.insert(p, x);
            proof {
                best0.insert_ensures(p as int, xv);
                assert(views_of(best@) =~= best0.insert(p as int, xv));
                let bv1 = views_of(best@);
                assert forall|a: int, b: int|
                    0 <= a < b < bv1.len() implies movement_older(bv1[b], bv1[a]) by {
                    if b < p {
                        assert(movement_older(best0[b], best0[a]));
                    } else if b == p {
                        assert(movement_older(xv, best0[a]));
                    } else if a < p {
                        assert(movement_older(best0[b - 1], best0[a]));
                    } else if a == p {
                        assert(movement_older(best0[p as int], xv));
                        if b - 1 > p {
                            lemma_movement_older_trans(best0[b - 1], best0[p as int], xv);
                        }
                    } else {
                        assert(movement_older(best0[b - 1], best0[a - 1]));
                    }
                }
                assert forall|a: int|
                    0 <= a < bv1.len() implies csv.take(i as int + 1).contains(
                    #[trigger] bv1[a],
                ) by {
                    if a == p {
                        assert(csv.take(i as int + 1)[i as int] == xv);
                    } else {
                        let q: int = if a < p {
                            a
                        } else {
                            a - 1
                        };
                        assert(bv1[a] == best0[q]);
                        assert(csv.take(i as int).contains(best0[q]));
                        let jj = choose|jj: int|
                            0 <= jj < csv.take(i as int).len() && csv.take(i as int)[jj] == best0[q];
                        assert(csv.take(i as int + 1)[jj] == best0[q]);
                    }
                }
            }
            if best.len() > 10 {
                let ghost bv1 = views_of(best@);
                best.truncate(10);
                proof {
                    assert(views_of(best@) =~= bv1.take(10));
                    let bv2 = views_of(best@);
                    assert(l0 == 10 && p < 10);
                    assert(bv1[10] == best0[9]);
                    assert(movement_older(best0[9], bv2[9])) by {
                        if p == 9 {
                            assert(bv2[9] == xv);
                            assert(movement_older(best0[9], xv));
                        } else {
                            assert(bv2[9] == best0[8]);
                            assert(movement_older(best0[9], best0[8]));
                        }
                    }
                    assert forall|jj: int|
                        0 <= jj < i + 1 implies bv2.contains(#[trigger] csv[jj]) || (bv2.len() == 10
                        && movement_older(csv[jj], bv2[9])) by {
                        if jj == i {
                            assert(bv2[p as int] == xv);
                            assert(bv2.contains(csv[jj]));
                        } else if best0.contains(csv[jj]) {
                            let a = choose|a: int| 0 <= a < best0.len() && best0[a] == csv[jj];
                            if a < p {
                                assert(bv2[a] == csv[jj]);
                                assert(bv2.contains(csv[jj]));
                            } else if a < 9 {
                                assert(bv2[a + 1] == csv[jj]);
                                assert(bv2.contains(csv[jj]));
                            } else {
                                assert(csv[jj] == best0[9]);
                            }
                        } else {
                            lemma_movement_older_trans(csv[jj], best0[9], bv2[9]);
                        }
                    }
                }
            } else {
                proof {
                    let bv1 = views_of(best@);
                    assert forall|jj: int|
                        0 <= jj < i + 1 implies bv1.contains(#[trigger] csv[jj]) || (bv1.len() == 10
                        && movement_older(csv[jj], bv1[9])) by {
                        if jj == i {
                            assert(bv1[p as int] == xv);
                            assert(bv1.contains(csv[jj]));
                        } else if best0.contains(csv[jj]) {
                            let a = choose|a: int| 0 <= a < best0.len() && best0[a] == csv[jj];
                            if a < p {
                                assert(bv1[a] == csv[jj]);
                            } else {
                                assert(bv1[a + 1] == csv[jj]);
                            }
                            assert(bv1.contains(csv[jj]));
                        } else {
                            assert(l0 == 10 && movement_older(csv[jj], best0[9]));
                            assert(bv1.len() == 11);
                            assert(false);
                        }
                    }
                }
            }
        } else {
            proof {
                assert(p == best0.len() && best0.len() == 10);
                assert forall|a: int| 0 <= a < 10 implies movement_older(xv, best0[a]) by {
                    assert(movement_older(xv, best0[a]));
                }
                assert forall|jj: int|
                    0 <= jj < i + 1 implies views_of(best@).contains(#[trigger] csv[jj]) || (
                views_of(best@).len() == 10 && movement_older(csv[jj], views_of(best@)[9])) by {
                    if jj == i {
                        assert(movement_older(csv[jj], views_of(best@)[9]));
                    }
                }
            }
        }
        i += 1;
    }
    proof {
        let csv = views_of(kept@);
        let bv = views_of(best@);
        assert(csv.take(m as int) =~= csv);
        assert forall|k: int|
            0 <= k < csv.len() implies bv.contains(#[trigger] csv[k]) || (forall|a: int|
            0 <= a < bv.len() ==> movement_older(csv[k], #[trigger] bv[a])) by {
            if !bv.contains(csv[k]) {
                assert(bv.len() == 10 && movement_older(csv[k], bv[9]));
                assert forall|a: int| 0 <= a < bv.len() implies movement_older(
                    csv[k],
                    #[trigger] bv[a],
                ) by {
                    if a < 9 {
                        assert(movement_older(bv[9], bv[a]));
                        lemma_movement_older_trans(csv[k], bv[9], bv[a]);
                    }
                }
            }
        }
        assert forall|a: int| 0 <= a < bv.len() implies csv.contains(#[trigger] bv[a]) by {
            assert(csv.take(m as int).contains(bv[a]));
            let jj = choose|jj: int|
                0 <= jj < csv.take(m as int).len() && csv.take(m as int)[jj] == bv[a];
            assert(csv[jj] == bv[a]);
        }
    }
    best
}

/// One position of the statement's list, when the account's movements were
/// recorded in strictly rising statement order: position `q` holds the
/// movement recorded `q` places before the newest. Proved for `q` and every
/// position before it.
proof fn lemma_statement_prefix(all: Seq<MovementV>, listed: Seq<MovementV>, q: int)
    requires
        forall|a: int, b: int|
            0 <= a < b < all.len() ==> movement_older(#[trigger] all[a], #[trigger] all[b]),
        is_statement(listed, all),
        0 <= q < listed.len(),
    ensures
        forall|p: int| 0 <= p <= q ==> #[trigger] listed[p] == all[all.len() - 1 - p],
    decreases q,
{
    if q > 0 {
        lemma_statement_prefix(all, listed, q - 1);
    }
    let n = all.len() as int;
    let target = all[n - 1 - q];
    assert(listed.contains(target)) by {
        if !listed.contains(target) {
            assert(movement_older(target, listed[q]));
            assert(all.contains(listed[q]));
            let k = choose|k: int| 0 <= k < n && all[k] == listed[q];
            if k > n - 1 - q {
                let p = n - 1 - k;
                assert(listed[p] == all[k]);
                assert(movement_older(listed[q], listed[p]));
            } else if k == n - 1 - q {
                assert(listed.contains(listed[q]));
            } else {
                assert(movement_older(all[k], target));
            }
            assert(false);
        }
    }
    let qq = choose|qq: int| 0 <= qq < listed.len() && listed[qq] == target;
    if qq < q {
        assert(listed[qq] == all[n - 1 - qq]);
        assert(movement_older(all[n - 1 - q], all[n - 1 - qq]));
        assert(false);
    }
    if qq > q {
        assert(all.contains(listed[q]));
        let k = choose|k: int| 0 <= k < n && all[k] == listed[q];
        if k > n - 1 - q {
            let p = n - 1 - k;
            assert(listed[p] == all[k]);
            assert(movement_older(listed[q], listed[p]));
            assert(false);
        } else if k == n - 1 - q {
            assert(movement_older(listed[qq], listed[q]));
            assert(false);
        } else {
            assert(movement_older(all[k], target));
            assert(movement_older(listed[qq], listed[q]));
            assert(false);
        }
    }
    assert(listed[q] == all[n - 1 - q]);
}

/// Statement ordering: when an account's movements were recorded with
/// strictly rising timestamps — or, at equal timestamps, rising ids, which
/// recording order guarantees — the statement lists exactly the last ten
/// of them (all, when there are fewer), newest first.
pub proof fn lemma_statement_newest_first(all: Seq<MovementV>, listed: Seq<MovementV>)
    requires
        forall|a: int, b: int|
            0 <= a < b < all.len() ==> movement_older(#[trigger] all[a], #[trigger] all[b]),
        is_statement(listed, all),
    ensures
        listed.len() == (if all.len() <= 10 {
            all.len() as int
        } else {
            10int
        }),
        forall|q: int| 0 <= q < listed.len() ==> #[trigger] listed[q] == all[all.len() - 1 - q],
{
    assert forall|q: int| 0 <= q < listed.len() implies #[trigger] listed[q] == all[all.len() - 1
        - q] by {
        lemma_statement_prefix(all, listed, q);
    }
}

/// Every movement selected for an account comes from the store and carries
/// the account's id.
pub proof fn lemma_matching_contains(ms: Seq<MovementV>, id: int, x: MovementV)
    requires
        matching(ms, id).contains(x),
    ensures
        ms.contains(x),
        x.client_id == id,
    decreases ms.len(),
{
    if ms.len() > 0 {
        let rest = matching(ms.drop_last(), id);
        if ms.last().client_id == id && x == ms.last() {
            assert(ms[ms.len() - 1] == x);
        } else {
            assert(rest.contains(x)) by {
                if ms.last().client_id == id {
                    let q = choose|q: int|
                        0 <= q < matching(ms, id).len() && matching(ms, id)[q] == x;
                    assert(q < rest.len());
                    assert(rest[q] == x);
                }
            }
            lemma_matching_contains(ms.drop_last(), id, x);
            let q = choose|q: int|
                0 <= q < ms.drop_last().len() && ms.drop_last()[q] == x;
            assert(ms[q] == x);
        }
    }
}

/// Atomicity: one update either leaves the store exactly as it found it,
/// answering with an error, or changes exactly one account's balance and
/// appends exactly the matching movement in the same step — never a new
/// balance without its movement, nor a movement without its balance.
pub proof fn lemma_update_atomic(
    lv: LedgerV,
    id: i32,
    amount: u32,
    description: Seq<char>,
    transaction_type: TransactionType,
    now: i64,
)
    ensures
        ({
            let step = lv.spec_update(id, amount, description, transaction_type, now);
            match step.1 {
                Err(_) => step.0 == lv,
                Ok(c) => {
                    &&& lv.has_client(id as int)
                    &&& c.id == id
                    &&& c.balance == (if transaction_type == TransactionType::Debit {
                        lv.client(id as int).balance - amount
                    } else {
                        lv.client(id as int).balance + amount
                    })
                    &&& step.0.clients == lv.clients.update(lv.client_index(id as int), c)
                    &&& step.0.movements == lv.movements.push(
                        MovementV {
                            id: lv.movements.len() as int + 1,
                            client_id: id as int,
                            amount: amount as int,
                            description: description,
                            kind: transaction_type,
                            created_at: now as int,
                        },
                    )
                },
            }
        }),
{
}

/// The state after `n` credits of one unit against a single account,
/// applied one after the other with the given timestamps.
pub open spec fn apply_credits(
    lv: LedgerV,
    id: i32,
    description: Seq<char>,
    timestamps: Seq<i64>,
    n: nat,
) -> LedgerV
    decreases n,
{
    if n == 0 {
        lv
    } else {
        apply_credits(lv, id, description, timestamps, (n - 1) as nat).spec_update(
            id,
            1u32,
            description,
            TransactionType::Credit,
            timestamps[n as int - 1],
        ).0
    }
}

/// Serialization: updates against one account apply one after another under
/// the exclusive hold, so `n` credits of one — in whatever order an
/// interleaving admits them and with whatever in-range timestamps — leave
/// the balance raised by exactly `n`, with exactly `n` movements added for
/// the account and none lost or duplicated.
pub proof fn lemma_serialized_credits(
    lv: LedgerV,
    id: i32,
    description: Seq<char>,
    timestamps: Seq<i64>,
    n: nat,
)
    requires
        lv.wf(),
        lv.has_client(id as int),
        spec_validate(1u32, description) is Ok,
        n <= timestamps.len(),
        forall|k: int|
            0 <= k < timestamps.len() ==> 0 <= #[trigger] timestamps[k] <= MAX_TIMESTAMP_MICROS,
        lv.client(id as int).balance + n <= i32::MAX,
        lv.movements.len() + n <= i32::MAX,
    ensures
        ({
            let end = apply_credits(lv, id, description, timestamps, n);
            &&& end.wf()
            &&& end.has_client(id as int)
            &&& end.client(id as int).balance == lv.client(id as int).balance + n
            &&& end.movements.len() == lv.movements.len() + n
            &&& end.movements_of(id as int).len() == lv.movements_of(id as int).len() + n
        }),
    decreases n,
{
    if n > 0 {
        lemma_serialized_credits(lv, id, description, timestamps, (n - 1) as nat);
        let mid = apply_credits(lv, id, description, timestamps, (n - 1) as nat);
        let at = timestamps[n as int - 1];
        lemma_update_preserves_invariant(mid, id, 1u32, description, TransactionType::Credit, at);
        let i = mid.client_index(id as int);
        assert(0 <= i < mid.clients.len() && mid.clients[i].id == id);
        assert(LedgerV::client_ok(mid.clients[i]));
        let step = mid.spec_update(id, 1u32, description, TransactionType::Credit, at);
        let end = apply_credits(lv, id, description, timestamps, n);
        assert(end == step.0);
        assert(step.1 is Ok);
        lemma_client_index_is(end, id as int, i);
        let m = MovementV {
            id: mid.movements.len() as int + 1,
            client_id: id as int,
            amount: 1int,
            description: description,
            kind: TransactionType::Credit,
            created_at: at as int,
        };
        assert(end.movements =~= mid.movements.push(m));
        assert(mid.movements.push(m).drop_last() =~= mid.movements);
        assert(end.movements_of(id as int) == mid.movements_of(id as int).push(m));
    }
}

} // verus!
