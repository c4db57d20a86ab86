use swedbank_ynab::endpoints::{bearer, BudgetAccount, UrlType};
use swedbank_ynab::swed::{EntryType, RawRecord, Reading, RecordType};

fn line(record_type: &str, debit_or_credit: &str) -> RawRecord {
    RawRecord {
        record_type: String::from(record_type),
        date: String::from("09.02.2020"),
        payee: String::from("Foo"),
        memo: String::from("Bar"),
        amount: String::from("12,99"),
        currency: String::from("EUR"),
        debit_or_credit: String::from(debit_or_credit),
        transaction_id: String::from("2020020900001"),
        payment_type: String::from("CTX"),
    }
}

#[test]
fn line_with_known_codes_is_a_row() {
    match line("20", "D").read() {
        Reading::Row(row) => {
            assert_eq!(row.record_type, RecordType::Transaction);
            assert_eq!(row.debit_or_credit, EntryType::Debit);
            assert_eq!(row.date, "09.02.2020");
            assert_eq!(row.payee, "Foo");
            assert_eq!(row.memo, "Bar");
            assert_eq!(row.amount, "12,99");
            assert_eq!(row.currency, "EUR");
            assert_eq!(row.transaction_id, "2020020900001");
            assert_eq!(row.payment_type, "CTX");
        }
        other => panic!("{:?}", other),
    }
    assert!(matches!(line("86", "K").read(), Reading::Row(_)));
}

#[test]
fn line_of_an_unknown_record_type_is_passed_over() {
    assert!(matches!(line("30", "D").read(), Reading::Unknown));
    assert!(matches!(line("", "D").read(), Reading::Unknown));
    assert!(matches!(line("30", "X").read(), Reading::Unknown));
}

#[test]
fn line_without_debit_or_credit_is_malformed() {
    assert!(matches!(line("20", "X").read(), Reading::Malformed));
    assert!(matches!(line("10", "").read(), Reading::Malformed));
}

#[test]
fn addresses_of_an_account() {
    let account = BudgetAccount::new(String::from("b-1"), String::from("a-2"));
    assert_eq!(account.budget_uri(), "https://api.youneedabudget.com/v1/budgets/b-1");
    assert_eq!(
        account.transactions_uri(),
        "https://api.youneedabudget.com/v1/budgets/b-1/transactions"
    );
    assert_eq!(
        account.account_uri(UrlType::ApiUrl),
        "https://api.youneedabudget.com/v1/budgets/b-1/accounts/a-2"
    );
    assert_eq!(
        account.account_uri(UrlType::AppUrl),
        "https://app.youneedabudget.com/b-1/accounts/a-2"
    );
    assert_eq!(account.app_account_uri(), "https://app.youneedabudget.com/b-1/accounts/a-2");
    assert_eq!(bearer("SECRET"), "Bearer SECRET");
}
