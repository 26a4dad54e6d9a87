use vstd::prelude::*;
use vstd::string::StrSliceExecFns;

use crate::models::transaction::TransactionType;

verus! {

/// One movement request as it reaches the core: a positive magnitude, a
/// short description, and the movement kind.
#[derive(Debug)]
pub struct TransactionRequest {
    pub amount: u32,
    pub description: String,
    pub transaction_type: TransactionType,
}

/// Which structural rule a malformed movement request broke.
#[derive(Debug, Clone, Copy, PartialEq, Eq, Structural)]
pub enum ValidationRule {
    /// The amount was zero; a movement's magnitude is strictly positive.
    AmountNotPositive,
    /// The amount does not fit the signed balance type; converting it would
    /// overflow rather than wrap.
    AmountTooLarge,
    /// The description holds fewer than 1 or more than 10 characters.
    DescriptionLength,
}

/// What validation says of a movement request: the first broken rule in the
/// order amount positivity, amount representability, description length, or
/// nothing when the request is well formed.
pub open spec fn spec_validate(amount: u32, description: Seq<char>) -> Result<(), ValidationRule> {
    if amount == 0 {
        Err(ValidationRule::AmountNotPositive)
    } else if amount > i32::MAX {
        Err(ValidationRule::AmountTooLarge)
    } else if description.len() < 1 || description.len() > 10 {
        Err(ValidationRule::DescriptionLength)
    } else {
        Ok(())
    }
}

/// The structural checks applied before the store is touched. The length
/// rule counts characters, not bytes. No side effects: a rejected request
/// never reaches the store.
pub fn validate_movement(amount: u32, description: &str) -> (r: Result<(), ValidationRule>)
    ensures
        r == spec_validate(amount, description@),
{
    if amount == 0 {
        Err(ValidationRule::AmountNotPositive)
    } else if amount > i32::MAX as u32 {
        Err(ValidationRule::AmountTooLarge)
    } else {
        let chars = description.unicode_len();
        if chars < 1 || chars > 10 {
            Err(ValidationRule::DescriptionLength)
        } else {
            Ok(())
        }
    }
}

impl TransactionRequest {
    /// What validation says of this request; see `validate_movement`.
    pub fn validate(&self) -> (r: Result<(), ValidationRule>)
        ensures
            r == spec_validate(self.amount, self.description@),
    {
        validate_movement(self.amount, self.description.as_str())
    }
}

} // verus!
