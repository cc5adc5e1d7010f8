//! Rows in, accounts out.

use std::collections::HashMap;

use payments_engine::csv_io::write_accounts;
use payments_engine::csv_io::Error;
use payments_engine::csv_io::TransactionReader;
use payments_engine::engine::Account;
use payments_engine::model::Kind;
use payments_engine::model::RejectReason;
use payments_engine::model::Transaction;
use payments_engine::money::Money;

/// Collects every row of `input`, which must have a usable header.
fn rows(input: &str) -> Vec<Result<Transaction, RejectReason>> {
    let mut reader = TransactionReader::new(input.as_bytes()).expect("header should be usable");
    let mut rows = Vec::new();
    while let Some(row) = reader.read().expect("input should be well-formed CSV") {
        rows.push(row);
    }
    rows
}

fn money(s: &str) -> Money {
    s.parse().expect("test amount should parse")
}

#[test]
fn reads_the_documented_input_shape() {
    // The last row deliberately has no trailing newline.
    let rows = rows("\
         type, client, tx, amount\n\
         deposit, 1, 1, 1.0\n\
         withdrawal, 2, 5, 3.0");
    assert_eq!(
        rows,
        [
            Ok(Transaction {
                client: 1,
                tx: 1,
                kind: Kind::Deposit(money("1.0")),
            }),
            Ok(Transaction {
                client: 2,
                tx: 5,
                kind: Kind::Withdrawal(money("3.0")),
            }),
        ]
    );
}

#[test]
fn accepts_rows_with_and_without_the_amount_field() {
    // The two shapes a dispute takes: three fields, or four with the last
    // one empty.
    let rows = rows("\
         type,client,tx,amount\n\
         dispute,1,1\n\
         resolve,1,1,\n\
         chargeback, 1, 1,   \n");
    assert_eq!(
        rows,
        [
            Ok(Transaction {
                client: 1,
                tx: 1,
                kind: Kind::Dispute
            }),
            Ok(Transaction {
                client: 1,
                tx: 1,
                kind: Kind::Resolve
            }),
            Ok(Transaction {
                client: 1,
                tx: 1,
                kind: Kind::Chargeback
            }),
        ]
    );
}

#[test]
fn matches_transaction_types_regardless_of_case() {
    let rows = rows("type,client,tx,amount\nDeposit,1,1,1.0\nDISPUTE,1,1,\n");
    assert!(matches!(
        rows[0],
        Ok(Transaction {
            kind: Kind::Deposit(_),
            ..
        })
    ));
    assert!(matches!(
        rows[1],
        Ok(Transaction {
            kind: Kind::Dispute,
            ..
        })
    ));
}

#[test]
fn reports_why_a_row_cannot_be_used() {
    let rows = rows("\
         type,client,tx,amount\n\
         transfer,1,1,1.0\n\
         deposit,1,1\n\
         deposit,1,2,-1.0\n\
         deposit,1,3,1.00005\n\
         deposit,,4,1.0\n\
         deposit,70000,5,1.0\n\
         deposit,1,4294967296,1.0\n");
    assert_eq!(
        rows,
        [
            Err(RejectReason::UnknownType),
            Err(RejectReason::AmountShape),
            Err(RejectReason::AmountShape),
            Err(RejectReason::AmountShape),
            Err(RejectReason::MalformedRow),
            Err(RejectReason::MalformedRow),
            Err(RejectReason::MalformedRow),
        ]
    );
}

#[test]
fn tolerates_reordered_columns_a_bom_and_crlf() {
    let rows = rows("\
         \u{feff}note,TX,client,type,amount\r\n\
         ignored,1,1,deposit,1.0\r\n");
    assert_eq!(
        rows,
        [Ok(Transaction {
            client: 1,
            tx: 1,
            kind: Kind::Deposit(money("1.0")),
        })]
    );
}

#[test]
fn skips_blank_lines_and_accepts_a_header_only_file() {
    assert!(rows("type,client,tx,amount\n").is_empty());
    assert_eq!(rows("type,client,tx,amount\n\n\ndispute,1,1\n").len(), 1);
}

#[test]
fn non_utf8_spoils_only_its_own_row() {
    let input: &[u8] =
        b"type,client,tx,amount\ndeposit,1,1,1.0\ndeposit,1,\xff,2.0\ndeposit,1,3,3.0\n";
    let mut reader = TransactionReader::new(input).expect("header should be usable");

    let mut collected = Vec::new();
    while let Some(row) = reader.read().expect("only the row itself is spoiled") {
        collected.push(row);
    }

    assert_eq!(collected.len(), 3);
    assert!(collected[0].is_ok(), "{:?}", collected[0]);
    assert_eq!(collected[1], Err(RejectReason::MalformedRow));
    assert!(collected[2].is_ok(), "{:?}", collected[2]);
}

#[test]
fn skips_lines_that_only_look_empty() {
    // Whitespace and bare separators are as empty as an empty line.
    assert!(rows("type,client,tx,amount\n   \n,,,\n\t\n").is_empty());
}

#[test]
fn a_header_without_the_needed_columns_is_fatal() {
    let error = TransactionReader::new(&b"type,client,amount\n"[..]).unwrap_err();
    assert!(matches!(error, Error::MissingColumn("tx")), "{}", error.to_string());
}

#[test]
fn an_input_with_no_header_is_fatal() {
    // An empty file, and one whose first line is already data. The first
    // line is read as the header, so a missing column is the right error.
    for input in ["", "deposit,1,1,1.0\n"] {
        let error = TransactionReader::new(input.as_bytes()).unwrap_err();
        assert!(matches!(error, Error::MissingColumn("type")), "{}", error.to_string());
    }
}

#[test]
fn a_missing_amount_column_only_affects_rows_that_need_one() {
    let rows = rows("type,client,tx\ndispute,1,1\ndeposit,1,2\n");
    assert_eq!(
        rows,
        [
            Ok(Transaction {
                client: 1,
                tx: 1,
                kind: Kind::Dispute
            }),
            Err(RejectReason::AmountShape),
        ]
    );
}

#[test]
fn writes_accounts_sorted_by_client_at_four_decimal_places() {
    let accounts = HashMap::from([
        (
            2,
            Account {
                available: money("2.0"),
                held: Money::zero(),
                locked: false,
            },
        ),
        (
            1,
            Account {
                available: Money::from_units(-100_000),
                held: money("10.0"),
                locked: true,
            },
        ),
    ]);

    let mut output = Vec::new();
    write_accounts(&mut output, &accounts).unwrap();

    assert_eq!(
        String::from_utf8(output).unwrap(),
        "\
             client,available,held,total,locked\n\
             1,-10.0000,10.0000,0.0000,true\n\
             2,2.0000,0.0000,2.0000,false\n"
    );
}

#[test]
fn writes_a_header_even_with_no_accounts() {
    let mut output = Vec::new();
    write_accounts(&mut output, &HashMap::new()).unwrap();
    assert_eq!(
        String::from_utf8(output).unwrap(),
        "client,available,held,total,locked\n"
    );
}
