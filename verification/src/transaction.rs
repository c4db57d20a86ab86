//! From a row of the statement to a transaction of the budget.

use crate::decimal::{
    all_digits, decimal, is_ascii_digit, is_digit, is_number, lemma_decimal_of_few, read_number,
};
use crate::payee::{normalized, ParsedPayeeMemo};
use crate::swed::{
    is_comission, is_loan_repayment, EntryType, SwedbankCsv, COMMISSION, LOAN_REPAYMENT,
};
use crate::text::{
    chars_of, ends_with, has_suffix, join, joined, lemma_tokens_after_word, lemma_tokens_of_word,
    reversed, split, string_of, tokens,
};
use crate::ynab::{Transaction, YnabTransaction, CLEARED};
use vstd::prelude::*;

verus! {

/// The memo of a commission on a payment order ends with these words,
/// "service fee".
pub const FEE_MEMO_END: &'static str = " apkalpošanas komisija";

/// What is put behind the id of a row that shares it with another.
pub const SECOND_ROW: &'static str = "_1";

/// What the digits behind the comma count for, in thousandths of the unit:
/// one digit counts hundreds of them, two count tens, three count ones.
pub open spec fn thousandths(frac: Seq<char>) -> nat {
    if frac.len() == 1 {
        100 * decimal(frac)
    } else if frac.len() == 2 {
        10 * decimal(frac)
    } else {
        decimal(frac)
    }
}

/// The amount that a column writes, in milliunits. The comma is the decimal
/// point: digits write whole units, a thousand milliunits each, and digits, a
/// comma and one to three digits write the units and their thousandths. The
/// column writes no amount where it holds anything else: a sign, a second
/// comma, more than three digits behind the comma, none before or behind it,
/// or any other character.
pub open spec fn written_amount(amount: Seq<char>) -> Option<nat> {
    let parts = tokens(amount, ","@);
    if parts.len() == 1 && is_number(parts[0]) {
        Some(1000 * decimal(parts[0]))
    } else if parts.len() == 2 && is_number(parts[0]) && is_number(parts[1]) && parts[1].len()
        <= 3 {
        Some(1000 * decimal(parts[0]) + thousandths(parts[1]))
    } else {
        None
    }
}

/// The amount of a row in milliunits: what the column writes, below zero for
/// a debit and above for a credit. The sign comes from the entry type alone.
/// A column that writes no amount, or one too large to be held, counts as
/// zero.
pub open spec fn amount_of(amount: Seq<char>, entry: EntryType) -> int {
    match written_amount(amount) {
        Some(milliunits) => if milliunits <= i64::MAX {
            match entry {
                EntryType::Debit => -(milliunits as int),
                EntryType::Credit => milliunits as int,
            }
        } else {
            0
        },
        None => 0,
    }
}

/// The amount of a row in milliunits.
pub fn fmt_amount(amount: &str, tx_type: &EntryType) -> (r: i64)
    ensures
        r == amount_of(amount@, *tx_type),
{
    let text = chars_of(amount);
    let comma = chars_of(",");
    let parts = split(text.as_slice(), comma.as_slice());
    if parts.len() != 1 && parts.len() != 2 {
        return 0;
    }
    let ghost cut = tokens(amount@, ","@);
    assert(cut[0] == parts[0]@);
    let whole = match read_number(parts[0].as_slice()) {
        Some(v) => v,
        None => { return 0; },
    };
    let mut milliunits: i128 = 1000 * (whole as i128);
    if parts.len() == 2 {
        assert(cut[1] == parts[1]@);
        let digits: usize = parts[1].len();
        if digits > 3 {
            return 0;
        }
        proof {
            if is_number(cut[1]) {
                lemma_decimal_of_few(cut[1]);
            }
        }
        let frac = match read_number(parts[1].as_slice()) {
            Some(v) => v,
            None => { return 0; },
        };
        let each: i128 = if digits == 1 {
            100
        } else if digits == 2 {
            10
        } else {
            1
        };
        milliunits = milliunits + each * (frac as i128);
    }
    if milliunits > 0x7fff_ffff_ffff_ffff {
        return 0;
    }
    match tx_type {
        EntryType::Debit => (-milliunits) as i64,
        EntryType::Credit => milliunits as i64,
    }
}

/// A row is a commission to be added to the payment beside it where its
/// payment type is that of a commission and its memo ends as that of a
/// service fee does.
pub open spec fn rolls_up(memo: Seq<char>, payment_type: Seq<char>) -> bool {
    payment_type == COMMISSION@ && has_suffix(memo, FEE_MEMO_END@)
}

/// Whether the row is a commission to be added to the payment beside it.
pub fn needs_rollup(memo: &str, payment_type: &str) -> (r: bool)
    ensures
        r == rolls_up(memo@, payment_type@),
{
    if !is_comission(payment_type) {
        return false;
    }
    let text = chars_of(memo);
    let end = chars_of(FEE_MEMO_END);
    ends_with(text.as_slice(), end.as_slice())
}

/// A row shares its id with another where it is a commission, which has the
/// id of the payment, or the half of a loan repayment that names no payee.
pub open spec fn shares_id(payment_type: Seq<char>, payee: Seq<char>) -> bool {
    payment_type == COMMISSION@ || (payment_type == LOAN_REPAYMENT@ && payee.len() == 0)
}

/// Whether the row shares its id with another.
pub fn duplicate_transaction_id(payment_type: &str, payee: &str) -> (r: bool)
    ensures
        r == shares_id(payment_type@, payee@),
{
    is_comission(payment_type) || (is_loan_repayment(payment_type) && payee.is_empty())
}

/// The id under which a row is imported: its own, with a mark behind it where
/// it shares the id with another row.
pub open spec fn import_id(
    transaction_id: Seq<char>,
    payment_type: Seq<char>,
    payee: Seq<char>,
) -> Seq<char> {
    if shares_id(payment_type, payee) {
        transaction_id + SECOND_ROW@
    } else {
        transaction_id
    }
}

/// The id under which a row is imported.
pub fn fmt_transaction_id(transaction_id: &str, payment_type: &str, payee: &str) -> (r: String)
    ensures
        r@ == import_id(transaction_id@, payment_type@, payee@),
{
    let mut id = String::from_str(transaction_id);
    if duplicate_transaction_id(payment_type, payee) {
        id.append(SECOND_ROW);
    }
    id
}

/// A date with its parts in the opposite order: what the dots part, put
/// together with hyphens from the last to the first.
pub open spec fn iso_date(date: Seq<char>) -> Seq<char> {
    joined(tokens(date, "."@).reverse(), "-"@)
}

/// Turns a date from day.month.year into year-month-day.
pub fn fmt_date(d: &str) -> (r: String)
    ensures
        r@ == iso_date(d@),
{
    let text = chars_of(d);
    let dot = chars_of(".");
    let hyphen = chars_of("-");
    let parts = split(text.as_slice(), dot.as_slice());
    let turned = reversed(&parts);
    let date = join(&turned, hyphen.as_slice());
    string_of(date.as_slice())
}

/// The date that a row is booked under: the day of the purchase where the
/// memo gives one, else the day of the statement entry.
pub open spec fn row_date(row: SwedbankCsv) -> Seq<char> {
    match normalized(row.payee@, row.memo@).date {
        Some(day) => iso_date(day),
        None => iso_date(row.date@),
    }
}

/// The transaction that a row of the statement stands for.
pub open spec fn transaction_of(row: SwedbankCsv, account_id: Seq<char>) -> Transaction {
    let parsed = normalized(row.payee@, row.memo@);
    Transaction {
        import_id: import_id(row.transaction_id@, row.payment_type@, row.payee@),
        date: row_date(row),
        payee_name: parsed.payee,
        memo: parsed.memo,
        cleared: CLEARED@,
        amount: amount_of(row.amount@, row.debit_or_credit),
        account_id: account_id,
        needs_rollup: rolls_up(row.memo@, row.payment_type@),
    }
}

/// Makes the transaction of an account from a row of the statement.
pub fn from_transaction_row(row: SwedbankCsv, account_id: &str) -> (r: YnabTransaction)
    ensures
        r@ == transaction_of(row, account_id@),
{
    let parsed = ParsedPayeeMemo::from_str(row.payee.as_str(), row.memo.as_str());
    let date = match parsed.date {
        Some(day) => fmt_date(day.as_str()),
        None => fmt_date(row.date.as_str()),
    };
    YnabTransaction {
        import_id: fmt_transaction_id(
            row.transaction_id.as_str(),
            row.payment_type.as_str(),
            row.payee.as_str(),
        ),
        date: date,
        payee_name: parsed.payee,
        memo: parsed.memo,
        cleared: String::from_str(CLEARED),
        amount: fmt_amount(row.amount.as_str(), &row.debit_or_credit),
        account_id: String::from_str(account_id),
        needs_rollup: needs_rollup(row.memo.as_str(), row.payment_type.as_str()),
    }
}

/// Whether the year has a 29th of February.
pub open spec fn leap_year(year: int) -> bool {
    year % 4 == 0 && (year % 100 != 0 || year % 400 == 0)
}

/// How many days the month has.
pub open spec fn days_in_month(year: int, month: int) -> int {
    if month == 2 {
        if leap_year(year) {
            29
        } else {
            28
        }
    } else if month == 4 || month == 6 || month == 9 || month == 11 {
        30
    } else {
        31
    }
}

/// A day of the calendar written as year-month-day, in four, two and two
/// digits.
pub open spec fn calendar_date(date: Seq<char>) -> bool {
    &&& date.len() == 10
    &&& date[4] == '-'
    &&& date[7] == '-'
    &&& all_digits(date.subrange(0, 4))
    &&& all_digits(date.subrange(5, 7))
    &&& all_digits(date.subrange(8, 10))
    &&& 1 <= decimal(date.subrange(5, 7)) <= 12
    &&& 1 <= decimal(date.subrange(8, 10)) <= days_in_month(
        decimal(date.subrange(0, 4)) as int,
        decimal(date.subrange(5, 7)) as int,
    )
}

/// Reads the digits from index `from` up to index `to`.
fn read_digits(s: &[char], from: usize, to: usize) -> (r: Option<u32>)
    requires
        from <= to <= s.len(),
        to - from <= 4,
    ensures
        match r {
            Some(v) => all_digits(s@.subrange(from as int, to as int)) && v == decimal(
                s@.subrange(from as int, to as int),
            ),
            None => !all_digits(s@.subrange(from as int, to as int)),
        },
{
    let mut v: u32 = 0;
    let mut k: usize = from;
    let ghost part = s@.subrange(from as int, to as int);
    proof {
        assert(part.take(0) =~= Seq::<char>::empty());
    }
    while k < to
        invariant
            from <= k <= to <= s.len(),
            to - from <= 4,
            part == s@.subrange(from as int, to as int),
            all_digits(part.take(k - from)),
            v == decimal(part.take(k - from)),
            k - from == 0 ==> v == 0,
            k - from == 1 ==> v <= 9,
            k - from == 2 ==> v <= 99,
            k - from == 3 ==> v <= 999,
        decreases to - k,
    {
        let c = s[k];
        let ghost seen = part.take(k - from + 1);
        proof {
            assert(seen.drop_last() =~= part.take(k - from));
            assert(seen.last() == c);
        }
        if !is_ascii_digit(c) {
            assert(!is_digit(part[k - from]));
            return None;
        }
        let n: u32 = c as u32;
        v = v * 10 + (n - 0x30);
        assert(all_digits(seen)) by {
            assert forall|i: int| 0 <= i < seen.len() implies is_digit(
                #[trigger] seen[i],
            ) by {
                if i < k - from {
                    assert(seen[i] == part.take(k - from)[i]);
                }
            }
        }
        k += 1;
    }
    assert(part.take(to - from) =~= part);
    Some(v)
}

/// Whether `date` is a day of the calendar written as year-month-day.
pub fn is_valid_date(date: &str) -> (r: bool)
    ensures
        r == calendar_date(date@),
{
    let d = chars_of(date);
    if d.len() != 10 || d[4] != '-' || d[7] != '-' {
        return false;
    }
    let year = match read_digits(d.as_slice(), 0, 4) {
        Some(v) => v,
        None => { return false; },
    };
    let month = match read_digits(d.as_slice(), 5, 7) {
        Some(v) => v,
        None => { return false; },
    };
    let day = match read_digits(d.as_slice(), 8, 10) {
        Some(v) => v,
        None => { return false; },
    };
    let leap = year % 4 == 0 && (year % 100 != 0 || year % 400 == 0);
    let days: u32 = if month == 2 {
        if leap {
            29
        } else {
            28
        }
    } else if month == 4 || month == 6 || month == 9 || month == 11 {
        30
    } else {
        31
    };
    1 <= month && month <= 12 && 1 <= day && day <= days
}

/// Digits hold no comma.
proof fn lemma_digits_hold_no_comma(digits: Seq<char>)
    requires
        all_digits(digits),
    ensures
        !digits.contains(','),
{
    if digits.contains(',') {
        let i = choose|i: int| 0 <= i < digits.len() && digits[i] == ',';
        assert(is_digit(digits[i]));
    }
}

/// An amount written as digits, a comma and one to three digits comes to a
/// thousand milliunits for each unit before the comma and the thousandths
/// that the digits behind it count for, below zero for a debit. Divided by a
/// thousand it gives the units back, and what is left over are the
/// thousandths, so that nothing of what was written is lost. This holds as
/// far as the milliunits can be held.
pub proof fn lemma_amount_round_trip(whole: Seq<char>, frac: Seq<char>, entry: EntryType)
    requires
        is_number(whole),
        is_number(frac),
        frac.len() <= 3,
        1000 * decimal(whole) + thousandths(frac) <= i64::MAX,
    ensures
        amount_of(whole + seq![','] + frac, entry) == match entry {
            EntryType::Debit => -(1000 * decimal(whole) + thousandths(frac)),
            EntryType::Credit => (1000 * decimal(whole) + thousandths(frac)) as int,
        },
        0 <= thousandths(frac) < 1000,
        amount_of(whole + seq![','] + frac, EntryType::Credit) / 1000 == decimal(whole),
        amount_of(whole + seq![','] + frac, EntryType::Credit) % 1000 == thousandths(frac),
{
    reveal_strlit(",");
    assert(","@ =~= seq![',']);
    let written = whole + seq![','] + frac;
    lemma_digits_hold_no_comma(whole);
    lemma_digits_hold_no_comma(frac);
    lemma_tokens_after_word(whole, ',', frac);
    lemma_tokens_of_word(frac, ',');
    let parts = seq![whole] + seq![frac];
    assert(tokens(written, seq![',']) == parts);
    assert(parts.len() == 2 && parts[0] == whole && parts[1] == frac);
    lemma_decimal_of_few(frac);
}

/// An amount written as digits alone is whole units: a thousand milliunits
/// for each, below zero for a debit, as far as the milliunits can be held.
pub proof fn lemma_amount_of_whole_units(whole: Seq<char>, entry: EntryType)
    requires
        is_number(whole),
        1000 * decimal(whole) <= i64::MAX,
    ensures
        amount_of(whole, entry) == match entry {
            EntryType::Debit => -(1000 * decimal(whole)),
            EntryType::Credit => 1000 * (decimal(whole) as int),
        },
{
    reveal_strlit(",");
    assert(","@ =~= seq![',']);
    lemma_digits_hold_no_comma(whole);
    lemma_tokens_of_word(whole, ',');
}

/// A debit is never booked above zero, nor a credit below it.
pub proof fn lemma_amount_sign(amount: Seq<char>)
    ensures
        amount_of(amount, EntryType::Debit) <= 0,
        amount_of(amount, EntryType::Credit) >= 0,
{
    let parts = tokens(amount, ","@);
    if parts.len() == 2 && is_number(parts[1]) && parts[1].len() <= 3 {
        lemma_decimal_of_few(parts[1]);
    }
}

/// The id under which a row is imported hangs on its transaction id, its
/// payment type and its payee, and on nothing else: rows that agree in these
/// are imported under one id, whatever account they are read for, and a row
/// read again is imported under the id that it had.
pub proof fn lemma_import_id_stable(
    a: SwedbankCsv,
    b: SwedbankCsv,
    account_a: Seq<char>,
    account_b: Seq<char>,
)
    requires
        a.transaction_id@ == b.transaction_id@,
        a.payment_type@ == b.payment_type@,
        a.payee@ == b.payee@,
    ensures
        transaction_of(a, account_a).import_id == transaction_of(b, account_b).import_id,
{
}

/// A debit is booked with the amount of the credit of the same column, the
/// sign turned.
pub proof fn lemma_debit_mirrors_credit(amount: Seq<char>)
    ensures
        amount_of(amount, EntryType::Debit) == -amount_of(amount, EntryType::Credit),
{
}

} // verus!
