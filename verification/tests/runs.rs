//! Whole runs: the balances and the summary of an input.

use payments_engine::csv_io::unreadable;
use payments_engine::csv_io::Columns;
use payments_engine::csv_io::Error;
use payments_engine::csv_io::parse;
use payments_engine::csv_io::TransactionReader;
use payments_engine::csv_io::write_accounts;
use payments_engine::ignored::Ignored;
use payments_engine::model::Kind;
use payments_engine::model::RejectReason;
use payments_engine::model::REASONS;
use payments_engine::model::Transaction;
use payments_engine::money::Money;
use payments_engine::run::process;
use payments_engine::run::run;
use payments_engine::run::Run;

const EXAMPLE: &str = "type, client, tx, amount\n\
    deposit, 1, 1, 1.0\n\
    deposit, 2, 2, 2.0\n\
    deposit, 1, 3, 2.0\n\
    withdrawal, 1, 4, 1.5\n\
    withdrawal, 2, 5, 3.0\n";

/// The balances and the summary of `input`, as text.
fn outcome(input: &[u8]) -> (String, String) {
    let output = run(input).expect("header should be usable");
    (String::from_utf8(output.balances).unwrap(), output.summary)
}

#[test]
fn processes_the_documented_example() {
    let (balances, _) = outcome(EXAMPLE.as_bytes());
    assert_eq!(
        balances,
        "client,available,held,total,locked\n\
         1,1.5000,0.0000,1.5000,false\n\
         2,2.0000,0.0000,2.0000,false\n"
    );
}

#[test]
fn the_example_reports_its_failed_withdrawal() {
    // The example ends with a withdrawal client 2 cannot afford.
    let (_, summary) = outcome(EXAMPLE.as_bytes());
    assert_eq!(summary, "ignored 1 row(s):\n           1  insufficient funds\n");
}

#[test]
fn processes_a_file_with_no_transactions() {
    let (balances, _) = outcome(b"type,client,tx,amount\n");
    assert_eq!(balances, "client,available,held,total,locked\n");
}

#[test]
fn a_clean_run_says_nothing_on_stderr() {
    let (_, summary) = outcome(b"type,client,tx,amount\ndeposit,1,1,1\n");
    assert_eq!(summary, "");
}

#[test]
fn processes_disputes_resolutions_and_chargebacks() {
    let (balances, summary) = outcome(
        b"type,client,tx,amount\n\
          deposit,3,1,10\n\
          deposit,3,2,4\n\
          dispute,3,1\n\
          dispute,3,2\n\
          deposit,1,3,5\n\
          dispute,1,3\n\
          resolve,1,3\n\
          chargeback,3,1\n\
          deposit,2,4,7.25\n\
          withdrawal,2,5,7.25\n\
          dispute,2,4\n\
          chargeback,2,4\n",
    );
    assert_eq!(
        balances,
        "client,available,held,total,locked\n\
         1,5.0000,0.0000,5.0000,false\n\
         2,-7.2500,0.0000,-7.2500,true\n\
         3,0.0000,4.0000,4.0000,true\n"
    );
    assert_eq!(summary, "");
}

#[test]
fn ignored_rows_are_summarised_by_reason() {
    let (balances, summary) = outcome(
        b"type,client,tx,amount\n\
          transfer,1,1,1.0\n\
          deposit,1,1\n\
          deposit,1,1,-1.0\n\
          deposit,1,1,10.0\n\
          deposit,1,1,20.0\n\
          withdrawal,1,2,11.0\n\
          dispute,2,1\n\
          resolve,1,1\n",
    );
    assert_eq!(
        summary,
        "ignored 7 row(s):\n           \
         1  unknown transaction type\n           \
         2  missing or invalid amount\n           \
         1  insufficient funds\n           \
         1  duplicate transaction id\n           \
         1  transaction belongs to another client\n           \
         1  transaction is not under dispute\n"
    );
    assert_eq!(
        balances,
        "client,available,held,total,locked\n\
         1,10.0000,0.0000,10.0000,false\n\
         2,0.0000,0.0000,0.0000,false\n"
    );
}

#[test]
fn every_reason_is_counted_under_its_own_words() {
    let (_, summary) = outcome(
        b"type,client,tx,amount\n\
          deposit,x,1,1\n\
          transfer,1,1,1\n\
          deposit,1,1,x\n\
          deposit,1,1,922337203685477.5807\n\
          deposit,1,2,1\n\
          deposit,1,1,1\n\
          withdrawal,2,3,1\n\
          dispute,1,9\n\
          dispute,2,1\n\
          dispute,1,1\n\
          dispute,1,1\n\
          chargeback,1,1\n\
          resolve,1,1\n\
          deposit,2,4,1\n\
          resolve,2,4\n",
    );
    assert_eq!(
        summary,
        "ignored 11 row(s):\n           \
         1  malformed row\n           \
         1  unknown transaction type\n           \
         1  missing or invalid amount\n           \
         1  account locked\n           \
         1  insufficient funds\n           \
         1  duplicate transaction id\n           \
         1  unknown transaction id\n           \
         1  transaction belongs to another client\n           \
         1  transaction is not disputable\n           \
         1  transaction is not under dispute\n           \
         1  balance would overflow\n"
    );
}

#[test]
fn a_row_that_fails_to_parse_creates_no_client() {
    let (balances, summary) = outcome(
        b"type,client,tx,amount\n\
          transfer,4,1,1\n\
          deposit,5,1,x\n\
          deposit,6,\xff,1\n\
          withdrawal,7,1,1\n",
    );
    // Only the last row is a transaction, and it names its client.
    assert_eq!(
        balances,
        "client,available,held,total,locked\n7,0.0000,0.0000,0.0000,false\n"
    );
    assert_eq!(
        summary,
        "ignored 4 row(s):\n           \
         1  malformed row\n           \
         1  unknown transaction type\n           \
         1  missing or invalid amount\n           \
         1  insufficient funds\n"
    );
}

#[test]
fn every_row_is_carried_out_or_counted() {
    let input = "type,client,tx,amount\ndeposit,1,1,1\n\nx,1,1\n,,\ndispute,1,1\ndispute,1,1\n";
    let mut reader = TransactionReader::new(input.as_bytes()).unwrap();
    let mut rows = 0;
    while reader.read().unwrap().is_some() {
        rows += 1;
    }
    assert_eq!(rows, 4);
    let (_, summary) = outcome(input.as_bytes());
    assert!(summary.starts_with("ignored 2 row(s):\n"), "{summary}");
}

#[test]
fn a_run_takes_rows_one_by_one() {
    let mut run = Run::default();
    let deposit = Transaction {
        client: 1,
        tx: 1,
        kind: Kind::Deposit(Money::from_units(5)),
    };
    run.take(Ok(deposit));
    run.take(Ok(deposit));
    run.take(Err(RejectReason::MalformedRow));
    assert_eq!(run.engine.accounts()[&1].available.units(), 5);
    let output = run.finish().unwrap();
    assert_eq!(
        output.summary,
        "ignored 2 row(s):\n           1  malformed row\n           1  duplicate transaction id\n"
    );
    let whole = process(b"type,client,tx,amount\ndeposit,1,1,0.0005\n").unwrap();
    assert_eq!(whole.engine, {
        let mut alone = Run::default();
        alone.take(Ok(deposit));
        alone.engine
    });
    assert_eq!(whole.ignored, Ignored::default());
}

#[test]
fn counts_are_right_aligned() {
    let mut ignored = Ignored::default();
    for _ in 0..1_234 {
        ignored.record(RejectReason::Overflow);
    }
    for _ in 0..7 {
        ignored.record(RejectReason::MalformedRow);
    }
    assert_eq!(
        ignored.report(),
        "ignored 1241 row(s):\n           7  malformed row\n        1234  balance would overflow\n"
    );
    assert_eq!(Ignored::default().report(), "");
}

#[test]
fn reasons_are_ordered_by_declaration() {
    for i in 0..REASONS {
        assert_eq!(RejectReason::at(i).rank(), i);
        for j in 0..REASONS {
            assert_eq!(RejectReason::at(i) < RejectReason::at(j), i < j);
        }
    }
    assert_eq!(RejectReason::at(0), RejectReason::MalformedRow);
    assert_eq!(RejectReason::at(10), RejectReason::Overflow);
}

#[test]
fn a_header_that_is_not_utf8_cannot_be_read() {
    let error = run(b"type,client,\xff\ndeposit,1,1\n").unwrap_err();
    assert!(matches!(error, Error::Csv(_)));
    let text = error.to_string();
    assert!(text.starts_with("reading CSV: CSV parse error"), "{text}");
    assert!(text.contains("invalid utf-8"), "{text}");
    assert_eq!(unreadable("broken"), "reading CSV: broken");
}

#[test]
fn a_missing_column_is_named() {
    let text = |input: &[u8]| run(input).unwrap_err().to_string();
    assert_eq!(text(b""), "input has no \"type\" column");
    assert_eq!(text(b"type,amount\n"), "input has no \"client\" column");
    assert_eq!(text(b"amount,Client,TYPE\n"), "input has no \"tx\" column");
    assert_eq!(
        Error::MissingColumn("a\"b\n").to_string(),
        "input has no \"a\\\"b\\n\" column"
    );
}

#[test]
fn columns_are_read_from_the_header() {
    let columns = Columns::from_headers(&["Amount", "tx", "note", "CLIENT", "Type"]).unwrap();
    assert_eq!(
        (columns.kind, columns.client, columns.tx, columns.amount),
        (4, 3, 1, Some(0))
    );
    let columns = Columns::from_headers(&["type", "client", "tx"]).unwrap();
    assert_eq!(columns.amount, None);
    assert!(matches!(
        Columns::from_headers(&["type", "tx"]),
        Err(Error::MissingColumn("client"))
    ));
}

#[test]
fn ids_take_a_plus_sign_and_zeros_but_no_more() {
    let columns = Columns::from_headers(&["type", "client", "tx"]).unwrap();
    let row = |client: &str, tx: &str| parse(&["dispute", client, tx], columns);
    let expected = |client, tx| {
        Ok(Transaction {
            client,
            tx,
            kind: Kind::Dispute,
        })
    };
    assert_eq!(row("+1", "0002"), expected(1, 2));
    assert_eq!(row("65535", "4294967295"), expected(65_535, 4_294_967_295));
    for (client, tx) in [("65536", "1"), ("1", "4294967296"), ("-1", "1"), ("+", "1"), ("1", "")] {
        assert_eq!(row(client, tx), Err(RejectReason::MalformedRow));
    }
    assert_eq!(row("00000000000000000000000000007", "1"), expected(7, 1));
    assert_eq!(row("\u{661}", "1"), Err(RejectReason::MalformedRow));
}

#[test]
fn balances_are_appended_to_what_is_there() {
    let run = process(b"type,client,tx,amount\ndeposit,65535,1,0.5\ndeposit,0,2,1\n").unwrap();
    let mut sink = b"# balances\n".to_vec();
    write_accounts(&mut sink, run.engine.accounts()).unwrap();
    assert_eq!(
        String::from_utf8(sink).unwrap(),
        "# balances\n\
         client,available,held,total,locked\n\
         0,1.0000,0.0000,1.0000,false\n\
         65535,0.5000,0.0000,0.5000,false\n"
    );
}

#[test]
fn quoted_fields_may_hold_separators_and_line_breaks() {
    let input = b"note,type,client,tx,amount\n\"a,b\r\nc \"\"d\"\"\",\"deposit\",\" 1 \",2,\"3\"\n";
    let mut reader = TransactionReader::new(&input[..]).unwrap();
    assert_eq!(
        reader.read().unwrap(),
        Some(Ok(Transaction {
            client: 1,
            tx: 2,
            kind: Kind::Deposit(Money::from_units(30_000)),
        }))
    );
    assert_eq!(reader.read().unwrap(), None);
}
