use swedbank_ynab::rollup::{merge_rollups, RollupError};
use swedbank_ynab::statement::{balance_gap, upload_batches, ImportTally, Statement};
use swedbank_ynab::swed::{EntryType, RecordType, SwedbankCsv};
use swedbank_ynab::transaction::{
    duplicate_transaction_id, fmt_date, from_transaction_row, is_valid_date,
};
use swedbank_ynab::ynab::{no_rollup, PostTransactionsResponseData, YnabTransaction};

fn txn(name: &str, amount: i64, fee: bool) -> YnabTransaction {
    YnabTransaction {
        import_id: format!("id-{}", name),
        date: String::from("2020-02-09"),
        payee_name: String::from(name),
        memo: None,
        cleared: String::from("cleared"),
        amount,
        account_id: String::from("acc"),
        needs_rollup: fee,
    }
}

fn row(kind: RecordType, payee: &str, memo: &str, amount: &str, payment_type: &str) -> SwedbankCsv {
    SwedbankCsv {
        record_type: kind,
        date: String::from("09.02.2020"),
        payee: String::from(payee),
        memo: String::from(memo),
        amount: String::from(amount),
        currency: String::from("EUR"),
        debit_or_credit: EntryType::Debit,
        transaction_id: String::from("2020020900001"),
        payment_type: String::from(payment_type),
    }
}

#[test]
fn commission_after_its_payment_is_added_to_it() {
    let merged = merge_rollups(vec![txn("A", 100, false), txn("B", -5, true)]);
    assert_eq!(merged, Ok(vec![txn("A", 95, false)]));
}

#[test]
fn commission_before_its_payment_is_added_to_it() {
    let merged = merge_rollups(vec![txn("B", -5, true), txn("A", 100, false)]);
    assert_eq!(merged, Ok(vec![txn("A", 95, false)]));
}

#[test]
fn commissions_go_to_the_payment_before_them() {
    let list = vec![
        txn("F0", -1, true),
        txn("A", -1000, false),
        txn("F1", -20, true),
        txn("F2", -300, true),
        txn("B", -5000, false),
        txn("C", 70000, false),
        txn("F3", -4, true),
    ];
    let merged = merge_rollups(list);
    assert_eq!(
        merged,
        Ok(vec![txn("A", -1321, false), txn("B", -5000, false), txn("C", 69996, false)])
    );
}

#[test]
fn list_without_commissions_stays_as_it_is() {
    let list = vec![txn("A", 1, false), txn("B", 2, false)];
    assert_eq!(merge_rollups(list.clone()), Ok(list));
    assert_eq!(merge_rollups(vec![]), Ok(vec![]));
}

#[test]
fn commissions_without_a_payment_are_an_error() {
    assert_eq!(merge_rollups(vec![txn("F", -5, true)]), Err(RollupError::NoPayment));
    assert_eq!(
        merge_rollups(vec![txn("F", -5, true), txn("G", -6, true)]),
        Err(RollupError::NoPayment)
    );
}

#[test]
fn merged_amount_must_fit() {
    assert_eq!(
        merge_rollups(vec![txn("A", i64::MAX, false), txn("F", 1, true)]),
        Err(RollupError::AmountTooLarge)
    );
    assert_eq!(
        merge_rollups(vec![txn("F", -1, true), txn("A", i64::MIN, false), txn("B", 0, false)]),
        Err(RollupError::AmountTooLarge)
    );
    assert_eq!(
        merge_rollups(vec![txn("A", i64::MAX, false), txn("F", 1, true), txn("G", -1, true)]),
        Ok(vec![txn("A", i64::MAX, false)])
    );
}

#[test]
fn merge_keeps_the_sum_of_the_amounts() {
    let list = vec![
        txn("F0", -7, true),
        txn("A", -1000, false),
        txn("F1", -20, true),
        txn("B", 5000, false),
        txn("F2", -3, true),
    ];
    let before: i64 = list.iter().map(|t| t.amount).sum();
    let merged = merge_rollups(list).unwrap();
    let after: i64 = merged.iter().map(|t| t.amount).sum();
    assert_eq!(before, after);
    assert!(merged.iter().all(|t| !t.needs_rollup));
}

#[test]
fn add_amount_changes_the_amount_alone() {
    assert_eq!(txn("A", 100, false).add_amount(-5), txn("A", 95, false));
    assert_eq!(txn("A", -100, true).add_amount(100), txn("A", 0, true));
    assert!(!no_rollup());
}

#[test]
fn row_becomes_a_transaction() {
    let t = from_transaction_row(
        row(
            RecordType::Transaction,
            "Corner Shop",
            "PIRKUMS 0***1 07.02.2020 12.99 EUR (123456) Corner Shop",
            "12,99",
            "CTX",
        ),
        "account-1",
    );
    assert_eq!(
        t,
        YnabTransaction {
            import_id: String::from("2020020900001"),
            date: String::from("2020-02-07"),
            payee_name: String::from("Corner Shop"),
            memo: None,
            cleared: String::from("cleared"),
            amount: -12990,
            account_id: String::from("account-1"),
            needs_rollup: false,
        }
    );
}

#[test]
fn commission_row_is_marked_and_gets_an_id_of_its_own() {
    let t = from_transaction_row(
        row(
            RecordType::Transaction,
            "",
            "Maksājumu uzdevuma apkalpošanas komisija",
            "0,36",
            "KOM",
        ),
        "account-1",
    );
    assert_eq!(t.import_id, "2020020900001_1");
    assert_eq!(t.date, "2020-02-09");
    assert_eq!(t.payee_name, "Swedbank");
    assert_eq!(t.memo, Some(String::from("Maksājumu uzdevuma apkalpošanas komisija")));
    assert_eq!(t.amount, -360);
    assert!(t.needs_rollup);
}

#[test]
fn row_read_twice_gets_one_import_id() {
    let make = || row(RecordType::Transaction, "Foo", "Bar", "1,00", "AZA");
    let a = from_transaction_row(make(), "account-1");
    let b = from_transaction_row(make(), "account-2");
    assert_eq!(a.import_id, b.import_id);
    assert_eq!(a.import_id, "2020020900001");
}

#[test]
fn shared_ids_are_told() {
    assert!(duplicate_transaction_id("KOM", "Foo"));
    assert!(duplicate_transaction_id("KOM", ""));
    assert!(duplicate_transaction_id("AZA", ""));
    assert!(!duplicate_transaction_id("AZA", "Foo"));
    assert!(!duplicate_transaction_id("CTX", ""));
}

#[test]
fn date_parts_are_turned_round() {
    assert_eq!(fmt_date("30.07.24"), "24-07-30");
    assert_eq!(fmt_date("2020"), "2020");
    assert_eq!(fmt_date(""), "");
    assert_eq!(fmt_date("1.2.3.4"), "4-3-2-1");
    assert_eq!(fmt_date("09.02."), "-02-09");
}

#[test]
fn days_of_the_calendar_are_told() {
    assert!(is_valid_date("2020-02-09"));
    assert!(is_valid_date("2020-02-29"));
    assert!(is_valid_date("2000-02-29"));
    assert!(is_valid_date("2021-12-31"));
    assert!(!is_valid_date("2021-02-29"));
    assert!(!is_valid_date("1900-02-29"));
    assert!(!is_valid_date("2021-04-31"));
    assert!(!is_valid_date("2021-13-01"));
    assert!(!is_valid_date("2021-00-10"));
    assert!(!is_valid_date("2021-01-00"));
    assert!(!is_valid_date("24-07-30"));
    assert!(!is_valid_date("2021-1-01"));
    assert!(!is_valid_date("2021/01/01"));
    assert!(!is_valid_date("2021-01-0१"));
    assert!(!is_valid_date("09.02.2020"));
    assert!(!is_valid_date(""));
}

#[test]
fn statement_takes_the_rows_in_the_budget_currency() {
    let mut s = Statement::new();
    assert_eq!(s.transactions.len(), 0);
    assert_eq!(s.undated.len(), 0);
    assert_eq!(s.closing_balance, 0);
    s.accept(row(RecordType::StartBalance, "", "", "10,00", ""), "EUR", "acc");
    s.accept(row(RecordType::Transaction, "Foo", "Bar", "1,00", "CTX"), "EUR", "acc");
    s.accept(row(RecordType::Transaction, "Foo", "Bar", "2,00", "CTX"), "USD", "acc");
    s.accept(row(RecordType::Turnover, "", "", "1,00", ""), "EUR", "acc");
    s.accept(row(RecordType::Interest, "", "", "0,00", ""), "EUR", "acc");
    s.accept(row(RecordType::EndBalance, "", "", "9,00", ""), "USD", "acc");
    s.accept(row(RecordType::EndBalance, "", "", "9,00", ""), "EUR", "acc");
    s.accept(row(RecordType::EndBalance, "", "", "nothing", ""), "EUR", "acc");
    s.accept(row(RecordType::Transaction, "Baz", "", "3,00", "CTX"), "EUR", "acc");
    assert_eq!(s.closing_balance, 900);
    assert_eq!(s.undated.len(), 0);
    assert_eq!(s.transactions.len(), 2);
    assert_eq!(s.transactions[0].payee_name, "Foo");
    assert_eq!(s.transactions[0].amount, -1000);
    assert_eq!(s.transactions[1].payee_name, "Baz");
    assert_eq!(s.transactions[1].account_id, "acc");
}

#[test]
fn statement_drops_a_row_without_a_day_of_the_calendar() {
    let mut s = Statement::new();
    let mut bad = row(RecordType::Transaction, "Foo", "Bar", "1,00", "CTX");
    bad.date = String::from("31.02.2020");
    s.accept(bad, "EUR", "acc");
    s.accept(
        row(
            RecordType::Transaction,
            "Abc",
            "PIRKUMS 0******1 30.07.24 13:07 24.90 CHF, ATTIECĪBĀ PRET ECB VALŪTAS KURSU 2.3% (123456) Abc",
            "24,90",
            "CTX",
        ),
        "EUR",
        "acc",
    );
    assert_eq!(s.transactions.len(), 0);
    assert_eq!(s.undated.len(), 2);
    assert_eq!(s.undated[0].date, "2020-02-31");
    assert_eq!(s.undated[0].payee_name, "Foo");
    assert_eq!(s.undated[1].date, "24-07-30");
    assert_eq!(s.undated[1].amount, -24900);
    s.accept(row(RecordType::Transaction, "Foo", "Bar", "1,00", "CTX"), "EUR", "acc");
    assert_eq!(s.transactions.len(), 1);
    assert_eq!(s.undated.len(), 2);
    let mut elsewhere = row(RecordType::Transaction, "Foo", "Bar", "1,00", "CTX");
    elsewhere.date = String::from("31.02.2020");
    s.accept(elsewhere, "USD", "acc");
    assert_eq!(s.undated.len(), 2);
}

#[test]
fn batches_are_cut_from_the_end() {
    assert_eq!(upload_batches(0), vec![]);
    assert_eq!(upload_batches(1), vec![(0, 1)]);
    assert_eq!(upload_batches(50), vec![(0, 50)]);
    assert_eq!(upload_batches(51), vec![(1, 51), (0, 1)]);
    assert_eq!(upload_batches(120), vec![(70, 120), (20, 70), (0, 20)]);
    let list: Vec<usize> = (0..120).collect();
    let want: Vec<(usize, usize)> =
        list.rchunks(50).map(|c| (c[0], c[c.len() - 1] + 1)).collect();
    assert_eq!(upload_batches(120), want);
}

#[test]
fn tally_counts_what_the_budget_answered() {
    let mut tally = ImportTally::new();
    assert_eq!((tally.imported, tally.duplicates), (0, 0));
    tally.record(&PostTransactionsResponseData {
        duplicate_import_ids: vec![String::from("a")],
        transactions: vec![txn("A", 1, false), txn("B", 2, false)],
    });
    tally.record(&PostTransactionsResponseData {
        duplicate_import_ids: vec![String::from("b"), String::from("c")],
        transactions: vec![],
    });
    assert_eq!((tally.imported, tally.duplicates), (2, 3));
}

#[test]
fn balance_gap_is_in_hundredths() {
    assert_eq!(balance_gap(900, 9000), 0);
    assert_eq!(balance_gap(900, 9009), 0);
    assert_eq!(balance_gap(900, 9010), 1);
    assert_eq!(balance_gap(900, 0), -900);
    assert_eq!(balance_gap(-900, -9009), 0);
    assert_eq!(balance_gap(-900, -9010), -1);
    assert_eq!(balance_gap(i64::MIN, i64::MAX), 922337203685477580 + (1i128 << 63));
}
