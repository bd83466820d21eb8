//! Why a transaction is turned away.

use vstd::prelude::*;
use vstd::string::*;

verus! {

/// The reasons for which a transaction is rejected. The two variants that
/// concern authorisation carry the reason in words.
#[derive(Debug, PartialEq, Eq)]
pub enum TransactionError {
    /// The amount is zero.
    InvalidAmount,
    /// The signature does not check out.
    InvalidSignature(String),
    /// Key material is missing or unusable.
    InvalidTx(String),
}

/// What a rejection is, as mathematics sees it.
pub enum TransactionErrorView {
    InvalidAmount,
    InvalidSignature(Seq<char>),
    InvalidTx(Seq<char>),
}

impl View for TransactionError {
    type V = TransactionErrorView;

    open spec fn view(&self) -> TransactionErrorView {
        match self {
            TransactionError::InvalidAmount => TransactionErrorView::InvalidAmount,
            TransactionError::InvalidSignature(reason) => TransactionErrorView::InvalidSignature(
                reason@,
            ),
            TransactionError::InvalidTx(reason) => TransactionErrorView::InvalidTx(reason@),
        }
    }
}

impl Clone for TransactionError {
    fn clone(&self) -> (copy: Self)
        ensures
            copy@ == self@,
    {
        match self {
            TransactionError::InvalidAmount => TransactionError::InvalidAmount,
            TransactionError::InvalidSignature(reason) => TransactionError::InvalidSignature(
                reason.clone(),
            ),
            TransactionError::InvalidTx(reason) => TransactionError::InvalidTx(reason.clone()),
        }
    }
}

impl TransactionError {
    /// The text that `to_string` returns.
    pub open spec fn text(self) -> Seq<char> {
        match self {
            TransactionError::InvalidAmount => "Invalid transaction amount"@,
            TransactionError::InvalidSignature(reason) => "Invalid signature: "@ + reason@,
            TransactionError::InvalidTx(reason) => "Invalid transaction: "@ + reason@,
        }
    }

    /// The error as a line of text for people to read.
    pub fn to_string(&self) -> (text: String)
        ensures
            text@ == self.text(),
    {
        match self {
            TransactionError::InvalidAmount => "Invalid transaction amount".to_owned(),
            TransactionError::InvalidSignature(reason) => {
                "Invalid signature: ".to_owned().concat(reason.as_str())
            },
            TransactionError::InvalidTx(reason) => {
                "Invalid transaction: ".to_owned().concat(reason.as_str())
            },
        }
    }
}

} // verus!
