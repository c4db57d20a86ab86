//! The rows of a Swedbank statement export, the codes the bank uses in them,
//! and the memo formats of the payment processors that pass a seller through.

use crate::text::{
    before_last, chars_of, contains, cut_once, drop_last, join, joined, nth, occurs_in, piece,
    replace, replaced, same, split, split_once, string_of, tokens,
};
use vstd::prelude::*;

verus! {

/// Payment type of a commission that the bank charges.
pub const COMMISSION: &'static str = "KOM";

/// Payment type of a loan repayment.
pub const LOAN_REPAYMENT: &'static str = "AZA";

/// How the memo of a card purchase names the rate at which its amount was
/// converted.
pub const RATE_MARKER: &'static str = " VALŪTAS KURSS ";

/// How it names the fee of the conversion.
pub const FEE_MARKER: &'static str = " KONVERTĀCIJAS MAKSA ";

/// How it says that the rate is held against that of the European Central
/// Bank.
pub const ECB_MARKER: &'static str = " ATTIECĪBĀ PRET ECB VALŪTAS KURSU ";

/// MakeCommerce writes its memo as fields with this between them.
pub const MAKECOMMERCE_FIELD_BREAK: &'static str = ", ";

/// The payee of a payment that Trustly passed on.
pub const TRUSTLY: &'static str = "Trustly Group AB";

/// The memo of a refund through Trustly.
pub const TRUSTLY_REFUND: &'static str = "Cross border transfer";

/// The payee of a payment that Paysera passed on.
pub const PAYSERA: &'static str = "Paysera LT";

/// What stands before the seller in a Paysera memo.
pub const PAYSERA_SELLER: &'static str = " pardevejs: ";

/// What the payee of a payment through PayPal begins with.
pub const PAYPAL_TAG: &'static str = "PAYPAL *";

/// Which way the money went.
#[derive(Debug, Clone, Copy, PartialEq, Eq)]
pub enum EntryType {
    Credit,
    Debit,
}

/// What a row of the statement reports.
#[derive(Debug, Clone, Copy, PartialEq, Eq)]
pub enum RecordType {
    StartBalance,
    Transaction,
    Turnover,
    EndBalance,
    Interest,
}

/// One row of the statement, its columns already told apart by their meaning.
#[derive(Debug)]
pub struct SwedbankCsv {
    pub record_type: RecordType,
    pub date: String,
    pub payee: String,
    pub memo: String,
    pub amount: String,
    pub currency: String,
    pub debit_or_credit: EntryType,
    pub transaction_id: String,
    pub payment_type: String,
}

/// One line of the export as it was written: each column is text. The
/// columns are told apart by what they mean, whatever the language of the
/// export calls them.
#[derive(Debug)]
pub struct RawRecord {
    pub record_type: String,
    pub date: String,
    pub payee: String,
    pub memo: String,
    pub amount: String,
    pub currency: String,
    pub debit_or_credit: String,
    pub transaction_id: String,
    pub payment_type: String,
}

/// What a line of the export turns out to be.
#[derive(Debug)]
pub enum Reading {
    /// A row of a known record type.
    Row(SwedbankCsv),
    /// A line of a record type that the statement is not read for.
    Unknown,
    /// A line whose debit/credit column holds neither code: the export is
    /// broken.
    Malformed,
}

/// The text of an optional string.
pub open spec fn text_of(s: Option<String>) -> Option<Seq<char>> {
    match s {
        Some(t) => Some(t@),
        None => None,
    }
}

/// Whether two string slices hold the same text.
pub fn same_text(a: &str, b: &str) -> (r: bool)
    ensures
        r == (a@ == b@),
{
    let x = chars_of(a);
    let y = chars_of(b);
    same(x.as_slice(), y.as_slice())
}

impl EntryType {
    /// The entry type that a code of the debit/credit column stands for.
    pub open spec fn of_code(code: Seq<char>) -> Option<EntryType> {
        if code == "K"@ {
            Some(EntryType::Credit)
        } else if code == "D"@ {
            Some(EntryType::Debit)
        } else {
            None
        }
    }

    /// Reads the debit/credit column: `K` is a credit, `D` a debit.
    pub fn from_code(code: &str) -> (r: Option<EntryType>)
        ensures
            r == Self::of_code(code@),
    {
        if same_text(code, "K") {
            Some(EntryType::Credit)
        } else if same_text(code, "D") {
            Some(EntryType::Debit)
        } else {
            None
        }
    }
}

impl RecordType {
    /// The record type that a code of the record-type column stands for.
    pub open spec fn of_code(code: Seq<char>) -> Option<RecordType> {
        if code == "10"@ {
            Some(RecordType::StartBalance)
        } else if code == "20"@ {
            Some(RecordType::Transaction)
        } else if code == "82"@ {
            Some(RecordType::Turnover)
        } else if code == "86"@ {
            Some(RecordType::EndBalance)
        } else if code == "900"@ {
            Some(RecordType::Interest)
        } else {
            None
        }
    }

    /// Reads the record-type column.
    pub fn from_code(code: &str) -> (r: Option<RecordType>)
        ensures
            r == Self::of_code(code@),
    {
        if same_text(code, "10") {
            Some(RecordType::StartBalance)
        } else if same_text(code, "20") {
            Some(RecordType::Transaction)
        } else if same_text(code, "82") {
            Some(RecordType::Turnover)
        } else if same_text(code, "86") {
            Some(RecordType::EndBalance)
        } else if same_text(code, "900") {
            Some(RecordType::Interest)
        } else {
            None
        }
    }
}

impl RawRecord {
    /// Reads the codes of a line. The record type is looked at first: a line
    /// of an unknown one is not read any further.
    pub fn read(self) -> (r: Reading)
        ensures
            match r {
                Reading::Row(row) => {
                    &&& RecordType::of_code(self.record_type@) == Some(row.record_type)
                    &&& EntryType::of_code(self.debit_or_credit@) == Some(row.debit_or_credit)
                    &&& row.date == self.date
                    &&& row.payee == self.payee
                    &&& row.memo == self.memo
                    &&& row.amount == self.amount
                    &&& row.currency == self.currency
                    &&& row.transaction_id == self.transaction_id
                    &&& row.payment_type == self.payment_type
                },
                Reading::Unknown => RecordType::of_code(self.record_type@) is None,
                Reading::Malformed => RecordType::of_code(self.record_type@) is Some
                    && EntryType::of_code(self.debit_or_credit@) is None,
            },
    {
        let record_type = match RecordType::from_code(self.record_type.as_str()) {
            Some(t) => t,
            None => { return Reading::Unknown; },
        };
        let debit_or_credit = match EntryType::from_code(self.debit_or_credit.as_str()) {
            Some(t) => t,
            None => { return Reading::Malformed; },
        };
        Reading::Row(
            SwedbankCsv {
                record_type,
                date: self.date,
                payee: self.payee,
                memo: self.memo,
                amount: self.amount,
                currency: self.currency,
                debit_or_credit,
                transaction_id: self.transaction_id,
                payment_type: self.payment_type,
            },
        )
    }
}

/// Whether the payment type is that of a bank commission.
pub fn is_comission(payment_type: &str) -> (r: bool)
    ensures
        r == (payment_type@ == COMMISSION@),
{
    same_text(payment_type, COMMISSION)
}

/// Whether the payment type is that of a loan repayment.
pub fn is_loan_repayment(payment_type: &str) -> (r: bool)
    ensures
        r == (payment_type@ == LOAN_REPAYMENT@),
{
    same_text(payment_type, LOAN_REPAYMENT)
}

/// A memo tells of a currency conversion by naming both the rate and the fee,
/// or by naming the rate of the European Central Bank.
pub open spec fn foreign_currency(memo: Seq<char>) -> bool {
    ||| occurs_in(memo, RATE_MARKER@) && occurs_in(memo, FEE_MARKER@)
    ||| occurs_in(memo, ECB_MARKER@)
}

/// Whether the memo tells of a currency conversion.
pub fn is_foreign_currency_tx(memo: &str) -> (r: bool)
    ensures
        r == foreign_currency(memo@),
{
    let m = chars_of(memo);
    let rate = chars_of(RATE_MARKER);
    let fee = chars_of(FEE_MARKER);
    let ecb = chars_of(ECB_MARKER);
    (contains(m.as_slice(), rate.as_slice()) && contains(m.as_slice(), fee.as_slice()))
        || contains(m.as_slice(), ecb.as_slice())
}

/// What a MakeCommerce memo says: the seller is its third field and the
/// seller's own memo its fourth. A memo of fewer fields names no seller, or
/// no memo.
pub open spec fn makecommerce(memo: Seq<char>) -> (Seq<char>, Option<Seq<char>>) {
    let fields = tokens(memo, MAKECOMMERCE_FIELD_BREAK@);
    (
        match piece(fields, 2) {
            Some(seller) => seller,
            None => Seq::empty(),
        },
        piece(fields, 3),
    )
}

/// Payee and memo of a payment that MakeCommerce passed on.
pub fn parse_makecommerce_memo(memo: &str) -> (r: (String, Option<String>))
    ensures
        (r.0@, text_of(r.1)) == makecommerce(memo@),
{
    let m = chars_of(memo);
    let sep = chars_of(MAKECOMMERCE_FIELD_BREAK);
    let fields = split(m.as_slice(), sep.as_slice());
    let payee = match nth(&fields, 2) {
        Some(seller) => string_of(seller.as_slice()),
        None => String::new(),
    };
    let seller_memo = match nth(&fields, 3) {
        Some(text) => Some(string_of(text.as_slice())),
        None => None,
    };
    (payee, seller_memo)
}

/// The seller that stands in a PayPal payee: the tag and every dash with a
/// space after it are taken out, and of the words that are left the last
/// two, which are identifiers, are dropped.
pub open spec fn paypal_seller(payee: Seq<char>) -> Seq<char> {
    let bare = replaced(replaced(payee, "- "@, Seq::empty()), PAYPAL_TAG@, Seq::empty());
    joined(before_last(tokens(bare, " "@), 2), " "@)
}

/// The seller named in a PayPal payee.
pub fn parse_paypal_payee(p: &str) -> (r: String)
    ensures
        r@ == paypal_seller(p@),
{
    let payee = chars_of(p);
    let dash = chars_of("- ");
    let tag = chars_of(PAYPAL_TAG);
    let space = chars_of(" ");
    let nothing: Vec<char> = Vec::new();
    let undashed = replace(payee.as_slice(), dash.as_slice(), nothing.as_slice());
    let bare = replace(undashed.as_slice(), tag.as_slice(), nothing.as_slice());
    let words = split(bare.as_slice(), space.as_slice());
    let kept = drop_last(&words, 2);
    let seller = join(&kept, space.as_slice());
    string_of(seller.as_slice())
}

/// What a Trustly memo says. A refund keeps Trustly as the payee and its
/// memo as it is. Any other memo is an order number, a space and the seller;
/// one without a space names no seller.
pub open spec fn trustly(memo: Seq<char>) -> (Seq<char>, Option<Seq<char>>) {
    if memo == TRUSTLY_REFUND@ {
        (TRUSTLY@, Some(memo))
    } else {
        match cut_once(memo, " "@) {
            Some((order, seller)) => (seller, Some(order)),
            None => (TRUSTLY@, Some(memo)),
        }
    }
}

/// Payee and memo of a payment that Trustly passed on.
pub fn parse_trustly_memo(memo: &str) -> (r: (String, Option<String>))
    ensures
        (r.0@, text_of(r.1)) == trustly(memo@),
{
    let m = chars_of(memo);
    let refund = chars_of(TRUSTLY_REFUND);
    if same(m.as_slice(), refund.as_slice()) {
        return (String::from_str(TRUSTLY), Some(String::from_str(memo)));
    }
    let space = chars_of(" ");
    match split_once(m.as_slice(), space.as_slice()) {
        Some((order, seller)) => (string_of(seller.as_slice()), Some(string_of(order.as_slice()))),
        None => (String::from_str(TRUSTLY), Some(String::from_str(memo))),
    }
}

/// What a Paysera memo says: the order, then the seller after the word for
/// "seller". A memo without that word names no seller.
pub open spec fn paysera(memo: Seq<char>) -> (Seq<char>, Option<Seq<char>>) {
    match cut_once(memo, PAYSERA_SELLER@) {
        Some((order, seller)) => (seller, Some(order)),
        None => (PAYSERA@, Some(memo)),
    }
}

/// Payee and memo of a payment that Paysera passed on.
pub fn parse_paysera_memo(memo: &str) -> (r: (String, Option<String>))
    ensures
        (r.0@, text_of(r.1)) == paysera(memo@),
{
    let m = chars_of(memo);
    let word = chars_of(PAYSERA_SELLER);
    match split_once(m.as_slice(), word.as_slice()) {
        Some((order, seller)) => (string_of(seller.as_slice()), Some(string_of(order.as_slice()))),
        None => (String::from_str(PAYSERA), Some(String::from_str(memo))),
    }
}

} // verus!
