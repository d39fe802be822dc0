use ledger_replay::decode::{decode_row, parse_amount, parse_number, parse_type};
use ledger_replay::ledger::{Transaction, TransactionType};

fn fields(v: &[&str]) -> Vec<Vec<u8>> {
    v.iter().map(|f| f.as_bytes().to_vec()).collect()
}

#[test]
fn amounts_in_ten_thousandths() {
    assert_eq!(parse_amount(b"1.5"), Some(15000));
    assert_eq!(parse_amount(b"2.0"), Some(20000));
    assert_eq!(parse_amount(b"0.0001"), Some(1));
    assert_eq!(parse_amount(b"100"), Some(1_000_000));
    assert_eq!(parse_amount(b"5."), Some(50000));
    assert_eq!(parse_amount(b"12.3456"), Some(123456));
    assert_eq!(parse_amount(b"922337203685477.5807"), Some(i64::MAX));
}

#[test]
fn malformed_amounts() {
    assert_eq!(parse_amount(b""), None);
    assert_eq!(parse_amount(b".5"), None);
    assert_eq!(parse_amount(b"1.23456"), None);
    assert_eq!(parse_amount(b"-1"), None);
    assert_eq!(parse_amount(b"1.2.3"), None);
    assert_eq!(parse_amount(b"abc"), None);
    assert_eq!(parse_amount(b"922337203685477.5808"), None);
    assert_eq!(parse_amount(b"99999999999999999999"), None);
}

#[test]
fn numbers_within_limit() {
    assert_eq!(parse_number(b"65535", 0, 5, 65535), Some(65535));
    assert_eq!(parse_number(b"65536", 0, 5, 65535), None);
    assert_eq!(parse_number(b"x42y", 1, 3, 100), Some(42));
    assert_eq!(parse_number(b"4a", 0, 2, 100), None);
    assert_eq!(parse_number(b"", 0, 0, 100), None);
    assert_eq!(parse_number(b"007", 0, 3, 100), Some(7));
}

#[test]
fn kind_names() {
    assert_eq!(parse_type(b"deposit"), Some(TransactionType::Deposit));
    assert_eq!(parse_type(b"withdrawal"), Some(TransactionType::Withdrawal));
    assert_eq!(parse_type(b"dispute"), Some(TransactionType::Dispute));
    assert_eq!(parse_type(b"resolve"), Some(TransactionType::Resolve));
    assert_eq!(parse_type(b"chargeback"), Some(TransactionType::Chargeback));
    assert_eq!(parse_type(b"Deposit"), None);
    assert_eq!(parse_type(b"deposits"), None);
}

#[test]
fn rows_decode_to_records() {
    assert_eq!(
        decode_row(&fields(&["deposit", "1", "7", "1.5"])),
        Some(Transaction {
            transaction_type: TransactionType::Deposit,
            client: 1,
            tx: 7,
            amount: Some(15000)
        })
    );
    assert_eq!(
        decode_row(&fields(&["dispute", "65535", "4294967295", ""])),
        Some(Transaction {
            transaction_type: TransactionType::Dispute,
            client: 65535,
            tx: 4294967295,
            amount: None
        })
    );
}

#[test]
fn malformed_rows_decode_to_none() {
    assert_eq!(decode_row(&fields(&["deposit", "1", "7"])), None);
    assert_eq!(decode_row(&fields(&["deposit", "1", "7", "1", "x"])), None);
    assert_eq!(decode_row(&fields(&["refund", "1", "7", "1"])), None);
    assert_eq!(decode_row(&fields(&["deposit", "65536", "7", "1"])), None);
    assert_eq!(decode_row(&fields(&["deposit", "1", "4294967296", "1"])), None);
    assert_eq!(decode_row(&fields(&["deposit", "1", "7", "one"])), None);
}
