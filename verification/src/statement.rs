//! A statement is read row by row: the rows in the currency of the budget
//! give the transactions and the closing balance. What was read is then sent
//! in batches, and the balance of the budget account is held against that of
//! the statement.

use crate::decimal::parsed_i64;
use crate::swed::{same_text, RecordType, SwedbankCsv};
use crate::transaction::{
    calendar_date, from_transaction_row, is_valid_date, row_date, transaction_of,
};
use crate::ynab::{
    parse_i64_string, uncommaed, PostTransactionsResponseData, YnabTransaction,
};
use vstd::prelude::*;

verus! {

/// The most transactions that are sent in one call.
pub const BATCH_SIZE: usize = 50;

/// What one row does to the statement read so far.
pub enum RowEffect {
    /// Nothing: the row is in another currency, reports something else than
    /// a transaction or the closing balance, or gives a closing balance that
    /// is no number.
    Nothing,
    /// It adds a transaction.
    Transaction,
    /// It is a transaction whose date is no day of the calendar: it is left
    /// out of the transactions and set aside.
    Undated,
    /// It sets the closing balance. The balance is the number that the digits
    /// of the column write with the comma taken out: hundredths, as the bank
    /// writes a balance with two digits behind the comma.
    ClosingBalance(i64),
}

/// What a row does to a statement that is read for a budget in
/// `budget_currency`.
pub open spec fn effect_of(row: SwedbankCsv, budget_currency: Seq<char>) -> RowEffect {
    if row.currency@ != budget_currency {
        RowEffect::Nothing
    } else {
        match row.record_type {
            RecordType::Transaction => if calendar_date(row_date(row)) {
                RowEffect::Transaction
            } else {
                RowEffect::Undated
            },
            RecordType::EndBalance => match parsed_i64(uncommaed(row.amount@)) {
                Some(balance) => RowEffect::ClosingBalance(balance),
                None => RowEffect::Nothing,
            },
            _ => RowEffect::Nothing,
        }
    }
}

/// What has been read of a statement.
pub struct Statement {
    /// The transactions, in the order of their rows.
    pub transactions: Vec<YnabTransaction>,
    /// The transactions that were left out because their date is no day of
    /// the calendar, in the order of their rows. They are kept to be
    /// reported, not to be sent.
    pub undated: Vec<YnabTransaction>,
    /// The closing balance in hundredths; zero until a row reports it.
    pub closing_balance: i64,
}

impl Statement {
    /// A statement of which nothing has been read.
    pub fn new() -> (r: Statement)
        ensures
            r.transactions@.len() == 0,
            r.undated@.len() == 0,
            r.closing_balance == 0,
    {
        Statement { transactions: Vec::new(), undated: Vec::new(), closing_balance: 0 }
    }

    /// Reads one row for the account `account_id` of a budget in
    /// `budget_currency`.
    pub fn accept(&mut self, row: SwedbankCsv, budget_currency: &str, account_id: &str)
        ensures
            match effect_of(row, budget_currency@) {
                RowEffect::Nothing => *final(self) == *old(self),
                RowEffect::Transaction => {
                    &&& final(self).closing_balance == old(self).closing_balance
                    &&& final(self).undated == old(self).undated
                    &&& final(self).transactions@.len() == old(self).transactions@.len() + 1
                    &&& final(self).transactions@.drop_last() == old(self).transactions@
                    &&& final(self).transactions@.last()@ == transaction_of(row, account_id@)
                },
                RowEffect::Undated => {
                    &&& final(self).closing_balance == old(self).closing_balance
                    &&& final(self).transactions == old(self).transactions
                    &&& final(self).undated@.len() == old(self).undated@.len() + 1
                    &&& final(self).undated@.drop_last() == old(self).undated@
                    &&& final(self).undated@.last()@ == transaction_of(row, account_id@)
                },
                RowEffect::ClosingBalance(balance) => {
                    &&& final(self).closing_balance == balance
                    &&& final(self).transactions == old(self).transactions
                    &&& final(self).undated == old(self).undated
                },
            },
    {
        if !same_text(row.currency.as_str(), budget_currency) {
            return ;
        }
        match row.record_type {
            RecordType::Transaction => {
                let txn = from_transaction_row(row, account_id);
                if is_valid_date(txn.date.as_str()) {
                    self.transactions.push(txn);
                    assert(self.transactions@.drop_last() =~= old(self).transactions@);
                } else {
                    self.undated.push(txn);
                    assert(self.undated@.drop_last() =~= old(self).undated@);
                }
            },
            RecordType::EndBalance => {
                match parse_i64_string(row.amount.as_str()) {
                    Some(balance) => {
                        self.closing_balance = balance;
                    },
                    None => {},
                }
            },
            _ => {},
        }
    }
}

/// How many calls it takes to send `count` transactions.
pub open spec fn batch_count(count: int) -> int {
    (count + BATCH_SIZE - 1) / (BATCH_SIZE as int)
}

/// The `k`-th batch of `count` transactions, as the index of its first
/// transaction and the index after its last. The batches are cut from the end
/// of the list: the first one sent holds the last transactions, and the one
/// that may be smaller than the others is sent last and holds the first.
pub open spec fn batch(count: int, k: int) -> (int, int) {
    (
        if count >= BATCH_SIZE * (k + 1) {
            count - BATCH_SIZE * (k + 1)
        } else {
            0
        },
        count - BATCH_SIZE * k,
    )
}

/// The batches in which `count` transactions are sent, in the order of the
/// calls.
pub fn upload_batches(count: usize) -> (r: Vec<(usize, usize)>)
    ensures
        r@.len() == batch_count(count as int),
        forall|k: int|
            0 <= k < r@.len() ==> (#[trigger] r@[k]).0 == batch(count as int, k).0 && r@[k].1
                == batch(count as int, k).1,
{
    let mut batches: Vec<(usize, usize)> = Vec::new();
    let mut end: usize = count;
    while end > 0
        invariant
            end <= count,
            end == if count >= BATCH_SIZE * batches.len() {
                count - BATCH_SIZE * batches.len()
            } else {
                0
            },
            batches.len() > 0 ==> count > BATCH_SIZE * (batches.len() - 1),
            forall|k: int|
                0 <= k < batches@.len() ==> (#[trigger] batches@[k]).0 == batch(count as int, k).0
                    && batches@[k].1 == batch(count as int, k).1,
        decreases end,
    {
        let start: usize = if end >= BATCH_SIZE {
            end - BATCH_SIZE
        } else {
            0
        };
        batches.push((start, end));
        end = start;
    }
    batches
}

/// How many transactions the budget took, and how many it had already.
pub struct ImportTally {
    pub imported: usize,
    pub duplicates: usize,
}

impl ImportTally {
    /// The tally before any call.
    pub fn new() -> (r: ImportTally)
        ensures
            r.imported == 0,
            r.duplicates == 0,
    {
        ImportTally { imported: 0, duplicates: 0 }
    }

    /// Counts in what the budget answered to one batch.
    pub fn record(&mut self, answer: &PostTransactionsResponseData)
        requires
            old(self).imported + answer.transactions@.len() <= usize::MAX,
            old(self).duplicates + answer.duplicate_import_ids@.len() <= usize::MAX,
        ensures
            final(self).imported == old(self).imported + answer.transactions@.len(),
            final(self).duplicates == old(self).duplicates + answer.duplicate_import_ids@.len(),
    {
        self.imported = self.imported + answer.transactions.len();
        self.duplicates = self.duplicates + answer.duplicate_import_ids.len();
    }
}

/// A balance in milliunits as whole hundredths, what is less than a
/// hundredth left off.
pub open spec fn hundredths(milliunits: int) -> int {
    if milliunits >= 0 {
        milliunits / 10
    } else {
        -((-milliunits) / 10)
    }
}

/// By how many hundredths the balance of the budget account, which the budget
/// gives in milliunits, is above the closing balance of the statement.
/// Zero says that the two agree.
pub fn balance_gap(closing_balance: i64, budget_balance: i64) -> (gap: i128)
    ensures
        gap == hundredths(budget_balance as int) - closing_balance,
{
    let budget: i128 = (budget_balance / 10) as i128;
    budget - closing_balance as i128
}

} // verus!
