use vstd::prelude::*;

verus! {

/// The two kinds of movement a request may ask for: a debit lowers the
/// balance, a credit raises it. The stored magnitude is always positive;
/// the sign is carried by the kind alone.
#[derive(Debug, Clone, Copy, PartialEq, Eq, Structural)]
pub enum TransactionType {
    Debit,
    Credit,
}

impl TransactionType {
    /// The one-letter code that names this kind in rendered responses.
    pub fn as_str(&self) -> (s: &'static str)
        ensures
            *self == TransactionType::Debit ==> s@ == "d"@,
            *self == TransactionType::Credit ==> s@ == "c"@,
    {
        match self {
            TransactionType::Debit => "d",
            TransactionType::Credit => "c",
        }
    }
}

/// One stored movement row: a debit or credit of `amount` against the
/// account `client_id`, recorded at `created_at` (microseconds since the
/// Unix epoch). Movement ids are assigned monotonically and are unique.
#[derive(Debug)]
pub struct TransactionModel {
    pub id: i32,
    pub client_id: i32,
    pub amount: i32,
    pub description: String,
    pub kind: TransactionType,
    pub created_at: i64,
}

/// The mathematical value of one movement row.
#[verifier::ext_equal]
pub struct MovementV {
    pub id: int,
    pub client_id: int,
    pub amount: int,
    pub description: Seq<char>,
    pub kind: TransactionType,
    pub created_at: int,
}

impl View for TransactionModel {
    type V = MovementV;

    open spec fn view(&self) -> MovementV {
        MovementV {
            id: self.id as int,
            client_id: self.client_id as int,
            amount: self.amount as int,
            description: self.description@,
            kind: self.kind,
            created_at: self.created_at as int,
        }
    }
}

/// The mathematical values of a sequence of stored movement rows.
pub open spec fn views_of(ts: Seq<TransactionModel>) -> Seq<MovementV> {
    ts.map_values(|t: TransactionModel| t@)
}

impl TransactionModel {
    /// An equal copy of this row.
    pub fn duplicate(&self) -> (r: Self)
        ensures
            r == *self,
    {
        TransactionModel {
            id: self.id,
            client_id: self.client_id,
            amount: self.amount,
            description: self.description.clone(),
            kind: self.kind,
            created_at: self.created_at,
        }
    }
}

} // verus!
