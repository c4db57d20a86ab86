use swedbank_ynab::swed::EntryType;
use swedbank_ynab::transaction::{fmt_amount, fmt_date, fmt_transaction_id, needs_rollup};

#[test]
fn test_tx_date() {
    assert_eq!(fmt_date("09.02.2020"), String::from("2020-02-09"));
}

#[test]
fn test_debit_amount() {
    assert_eq!(fmt_amount("12,99", &EntryType::Debit), -12990);
}

#[test]
fn test_credit_amount() {
    assert_eq!(fmt_amount("0,49", &EntryType::Credit), 490);
}

#[test]
fn test_commission_txid() {
    assert_eq!(fmt_transaction_id("123", "KOM", "Foo"), String::from("123_1"));
}

#[test]
fn test_purchase_txid() {
    assert_eq!(fmt_transaction_id("123", "CTX", "Foo"), String::from("123"));
}

#[test]
fn test_aza_txid_with_payee() {
    assert_eq!(fmt_transaction_id("123", "AZA", "Foo Bar"), String::from("123"));
}

#[test]
fn test_aza_txid_no_payee() {
    assert_eq!(fmt_transaction_id("123", "AZA", ""), String::from("123_1"));
}

#[test]
fn test_local_tx_fee_memo() {
    assert_eq!(needs_rollup("Maksājumu uzdevuma apkalpošanas komisija", "KOM"), true);
}

#[test]
fn test_local_tx_no_fee_memo() {
    assert_eq!(needs_rollup("Maksājumu uzdevuma apkalpošanas komisija", "CTX"), false);
}

#[test]
fn test_international_tx_fee_memo() {
    assert_eq!(
        needs_rollup("Ārvalstu Maksājumu uzdevumu apkalpošanas komisija", "KOM"),
        true
    );
}

#[test]
fn test_other_kom_tx_memo() {
    assert_eq!(
        needs_rollup("Kartes mēneša maksa 000000******0000 02.2020", "KOM"),
        false
    );
}
