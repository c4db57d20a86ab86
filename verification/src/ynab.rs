//! Transactions as a YNAB budget takes them. Amounts are in milliunits, a
//! thousand to the unit of currency.

use crate::decimal::{parse_i64, parsed_i64};
use crate::swed::text_of;
use crate::text::{chars_of, replace, replaced};
use vstd::prelude::*;

verus! {

/// Every transaction is sent as cleared.
pub const CLEARED: &'static str = "cleared";

/// `s` without its commas.
pub open spec fn uncommaed(s: Seq<char>) -> Seq<char> {
    replaced(s, ","@, Seq::empty())
}

/// Reads a whole number in which commas may stand: they are taken out, and
/// what is left must be digits with at most a sign before them, and fit.
pub fn parse_i64_string(i: &str) -> (r: Option<i64>)
    ensures
        r == parsed_i64(uncommaed(i@)),
{
    let text = chars_of(i);
    let comma = chars_of(",");
    let nothing: Vec<char> = Vec::new();
    let bare = replace(text.as_slice(), comma.as_slice(), nothing.as_slice());
    parse_i64(bare.as_slice())
}

/// A transaction that comes from elsewhere than a statement is no commission.
pub fn no_rollup() -> (r: bool)
    ensures
        !r,
{
    false
}

/// A transaction of a budget account.
#[derive(Debug, Clone, PartialEq, Eq)]
pub struct YnabTransaction {
    pub import_id: String,
    pub date: String,
    pub payee_name: String,
    pub memo: Option<String>,
    pub cleared: String,
    pub amount: i64,
    pub account_id: String,
    /// The row is a commission that belongs to the payment beside it.
    pub needs_rollup: bool,
}

/// What a `YnabTransaction` holds, as text and numbers.
pub struct Transaction {
    pub import_id: Seq<char>,
    pub date: Seq<char>,
    pub payee_name: Seq<char>,
    pub memo: Option<Seq<char>>,
    pub cleared: Seq<char>,
    pub amount: int,
    pub account_id: Seq<char>,
    pub needs_rollup: bool,
}

impl View for YnabTransaction {
    type V = Transaction;

    open spec fn view(&self) -> Transaction {
        Transaction {
            import_id: self.import_id@,
            date: self.date@,
            payee_name: self.payee_name@,
            memo: text_of(self.memo),
            cleared: self.cleared@,
            amount: self.amount as int,
            account_id: self.account_id@,
            needs_rollup: self.needs_rollup,
        }
    }
}

impl YnabTransaction {
    /// The same transaction with another amount.
    pub open spec fn with_amount(self, amount: int) -> YnabTransaction {
        YnabTransaction { amount: amount as i64, ..self }
    }

    /// Adds a commission to the amount.
    pub fn add_amount(self, commission: i64) -> (r: Self)
        requires
            i64::MIN <= self.amount + commission <= i64::MAX,
        ensures
            r == self.with_amount(self.amount + commission),
    {
        YnabTransaction { amount: self.amount + commission, ..self }
    }
}

/// What the budget answers to a batch of transactions.
#[derive(Debug)]
pub struct PostTransactionsResponseData {
    /// The import ids that it had already.
    pub duplicate_import_ids: Vec<String>,
    /// The transactions that it took.
    pub transactions: Vec<YnabTransaction>,
}

} // verus!
