//! What the engine and the CSV layer must never do, over many inputs.

use payments_engine::csv_io::TransactionReader;
use payments_engine::engine::Account;
use payments_engine::engine::Engine;
use payments_engine::model::ClientId;
use payments_engine::model::Kind;
use payments_engine::model::RejectReason;
use payments_engine::model::Transaction;
use payments_engine::model::TxId;
use payments_engine::money::Money;

/// A sequence of numbers that is the same on every run.
struct Numbers(u64);

impl Numbers {
    fn next(&mut self, below: u64) -> u64 {
        self.0 = self
            .0
            .wrapping_mul(6_364_136_223_846_793_005)
            .wrapping_add(1_442_695_040_888_963_407);
        (self.0 >> 33) % below
    }

    /// Few clients and ids, so sequences collide often enough to exercise
    /// disputes instead of wandering off into unrelated ids.
    fn transaction(&mut self) -> Transaction {
        let kind = match self.next(5) {
            0 => Kind::Deposit(Money::from_units(self.next(1_000_000) as i64)),
            1 => Kind::Withdrawal(Money::from_units(self.next(1_000_000) as i64)),
            2 => Kind::Dispute,
            3 => Kind::Resolve,
            _ => Kind::Chargeback,
        };
        Transaction {
            client: self.next(4) as ClientId,
            tx: self.next(8) as TxId,
            kind,
        }
    }

    fn transactions(&mut self) -> Vec<Transaction> {
        let length = self.next(64);
        (0..length).map(|_| self.transaction()).collect()
    }

    /// The four fields of a well-formed row, as the text a partner would send.
    fn row(&mut self) -> Vec<String> {
        let kinds = ["deposit", "withdrawal", "dispute", "resolve", "chargeback"];
        vec![
            kinds[self.next(5) as usize].to_string(),
            self.next(65_536).to_string(),
            (self.next(1 << 16) << 16 | self.next(1 << 16)).to_string(),
            Money::from_units(self.next(1_000_000_000) as i64).to_string(),
        ]
    }

    fn text(&mut self, alphabet: &str, longest: u64) -> String {
        let letters: Vec<char> = alphabet.chars().collect();
        let length = self.next(longest + 1);
        (0..length)
            .map(|_| letters[self.next(letters.len() as u64) as usize])
            .collect()
    }
}

/// Every row of `input`, as the reader yields them.
fn rows_of(input: &str) -> Vec<Result<Transaction, RejectReason>> {
    let mut reader = TransactionReader::new(input.as_bytes()).expect("header names all columns");
    let mut rows = Vec::new();
    while let Some(row) = reader.read().expect("input is well-formed CSV") {
        rows.push(row);
    }
    rows
}

fn account(engine: &Engine, client: ClientId) -> Account {
    engine.accounts().get(&client).copied().unwrap_or_default()
}

fn apply_all(transactions: &[Transaction]) -> Engine {
    let mut engine = Engine::new();
    for transaction in transactions {
        let _ = engine.apply(*transaction);
    }
    engine
}

#[test]
fn display_and_parse_round_trip() {
    let mut numbers = Numbers(1);
    for _ in 0..2_000 {
        let units = (numbers.next(1 << 31) << 32 | numbers.next(1 << 31)) as i64;
        let amount = Money::from_units(units >> numbers.next(60));
        assert_eq!(amount.to_string().parse(), Ok(amount));
    }
}

#[test]
fn parsing_is_total() {
    let mut numbers = Numbers(2);
    for _ in 0..5_000 {
        let text = numbers.text("-+0123456789.eE ", 12);
        if let Ok(amount) = text.parse::<Money>() {
            assert_eq!(amount.to_string().parse(), Ok(amount), "{text}");
        }
    }
}

#[test]
fn only_digits_and_a_point_are_amounts() {
    let mut numbers = Numbers(3);
    for _ in 0..5_000 {
        let text = numbers.text("-+019.eE x", 8);
        if text.parse::<Money>().is_ok() {
            assert!(text.chars().all(|c| c.is_ascii_digit() || c == '.'), "{text}");
            assert!(text.chars().filter(|&c| c == '.').count() <= 1, "{text}");
            assert!(text.chars().any(|c| c.is_ascii_digit()), "{text}");
        }
    }
    for units in [-1, -500, -15_000, i64::MIN] {
        assert!(Money::from_units(units).to_string().parse::<Money>().is_err());
    }
}

#[test]
fn parsing_is_exact_up_to_the_limit() {
    let units = |text: &str| text.parse::<Money>().map(Money::units);
    assert_eq!(units("922337203685477.5807"), Ok(i64::MAX));
    assert_eq!(units("922337203685477.58070000"), Ok(i64::MAX));
    assert!(units("922337203685477.5808").is_err());
    assert!(units("922337203685478").is_err());
    assert!(units("99999999999999999999999999999999999999999").is_err());
    assert!(units("0.00001").is_err());
    assert!(units("0.99999").is_err());
    assert_eq!(units("0.9999"), Ok(9_999));
}

#[test]
fn padding_with_zeros_does_not_change_the_value() {
    let mut numbers = Numbers(4);
    for whole in ["", "0", "0000", "7", "1203", "999999"] {
        for frac in ["", "0", "00000", "5", "0104", "12345"] {
            if whole.is_empty() && frac.is_empty() {
                continue;
            }
            let left = "0".repeat(numbers.next(4) as usize);
            let right = "0".repeat(numbers.next(4) as usize);
            let plain = format!("{whole}.{frac}");
            let padded = format!("{left}{whole}.{frac}{right}");
            assert_eq!(plain.parse::<Money>(), padded.parse::<Money>(), "{plain} vs {padded}");
        }
    }
}

#[test]
fn column_order_does_not_change_a_row() {
    let names = ["type", "client", "tx", "amount"];
    let mut numbers = Numbers(5);
    for _ in 0..200 {
        let values = numbers.row();
        let mut order = vec![0usize, 1, 2, 3];
        for i in 0..4 {
            order.swap(i, numbers.next(4) as usize);
        }
        let shuffled = format!(
            "{}\n{}\n",
            order.iter().map(|&i| names[i]).collect::<Vec<_>>().join(","),
            order.iter().map(|&i| values[i].as_str()).collect::<Vec<_>>().join(","),
        );
        let canonical = format!("{}\n{}\n", names.join(","), values.join(","));
        assert_eq!(rows_of(&shuffled), rows_of(&canonical), "{shuffled}");
    }
}

#[test]
fn only_the_first_heading_of_a_name_counts() {
    let expected = [Ok(Transaction {
        client: 1,
        tx: 2,
        kind: Kind::Dispute,
    })];
    assert_eq!(rows_of("type,client,tx,tx\ndispute,1,2,3\n"), expected);
    assert_eq!(rows_of("extra,tx,type,Client,CLIENT\nx,2,dispute,1,9\n"), expected);
}

#[test]
fn surrounding_whitespace_does_not_change_a_row() {
    let pads = ["", " ", "\t", "  ", "\u{3000}", "\u{a0} "];
    let mut numbers = Numbers(6);
    for _ in 0..200 {
        let values = numbers.row();
        let plain = format!("type,client,tx,amount\n{}\n", values.join(","));
        let padded = format!(
            " type,\tclient , tx,amount  \n{}\n",
            values
                .iter()
                .map(|v| {
                    let left = pads[numbers.next(6) as usize];
                    let right = pads[numbers.next(6) as usize];
                    format!("{left}{v}{right}")
                })
                .collect::<Vec<_>>()
                .join(","),
        );
        assert_eq!(rows_of(&padded), rows_of(&plain), "{padded}");
    }
}

#[test]
fn each_line_stands_alone() {
    let header = "type,client,tx,amount\n";
    let lines = [
        "deposit,1,1,1.0\n",
        "transfer,1,1,1.0\n",
        ",,,\n",
        "deposit,x,1,1.0\n",
        "dispute,1,1\n",
        "   \n",
        "withdrawal,2,2,two\n",
    ];
    let mut expected = Vec::new();
    for line in lines {
        expected.extend(rows_of(&format!("{header}{line}")));
    }
    assert_eq!(expected.len(), 5);
    assert_eq!(rows_of(&format!("{header}{}", lines.concat())), expected);
}

#[test]
fn reading_arbitrary_bytes_never_panics() {
    let mut numbers = Numbers(7);
    for _ in 0..500 {
        let mut input = b"type,client,tx,amount\n".to_vec();
        for _ in 0..numbers.next(300) {
            input.push(numbers.next(256) as u8);
        }
        if let Ok(mut reader) = TransactionReader::new(&input[..]) {
            while let Ok(Some(_)) = reader.read() {}
        }
    }
}

#[test]
fn held_funds_are_never_negative() {
    let mut numbers = Numbers(8);
    for _ in 0..200 {
        let mut engine = Engine::new();
        for transaction in numbers.transactions() {
            let _ = engine.apply(transaction);
            for (client, account) in engine.accounts() {
                assert!(account.held >= Money::zero(), "client {client}: {account:?}");
            }
        }
    }
}

#[test]
fn held_funds_are_the_open_disputes() {
    let mut numbers = Numbers(9);
    for _ in 0..200 {
        let mut engine = Engine::new();
        // The amount of each deposit, its client, and whether it is disputed.
        let mut deposits: Vec<(TxId, ClientId, i64, bool)> = Vec::new();
        let mut frozen: Vec<ClientId> = Vec::new();
        for transaction in numbers.transactions() {
            if engine.apply(transaction).is_ok() {
                let Transaction { client, tx, kind } = transaction;
                match kind {
                    Kind::Deposit(amount) => deposits.push((tx, client, amount.units(), false)),
                    Kind::Withdrawal(_) => {}
                    Kind::Dispute => deposits
                        .iter_mut()
                        .filter(|deposit| deposit.0 == tx)
                        .for_each(|deposit| deposit.3 = true),
                    Kind::Resolve | Kind::Chargeback => deposits
                        .iter_mut()
                        .filter(|deposit| deposit.0 == tx)
                        .for_each(|deposit| deposit.3 = false),
                }
                if kind == Kind::Chargeback {
                    frozen.push(client);
                }
            }
            for client in 0..4 {
                let open: i64 = deposits
                    .iter()
                    .filter(|deposit| deposit.1 == client && deposit.3)
                    .map(|deposit| deposit.2)
                    .sum();
                assert_eq!(account(&engine, client).held.units(), open);
                assert_eq!(account(&engine, client).locked, frozen.contains(&client));
            }
        }
    }
}

#[test]
fn a_rejected_transaction_moves_no_money() {
    let mut numbers = Numbers(10);
    for _ in 0..200 {
        let mut engine = Engine::new();
        for transaction in numbers.transactions() {
            let before = engine.clone();
            if engine.apply(transaction).is_err() {
                for (client, account) in engine.accounts() {
                    let previous = before.accounts().get(client).copied().unwrap_or_default();
                    assert_eq!(*account, previous, "client {client}");
                }
            }
        }
    }
}

#[test]
fn a_dispute_that_resolves_is_a_round_trip() {
    let mut numbers = Numbers(11);
    let mut tried = 0;
    for _ in 0..200 {
        let mut engine = Engine::new();
        for transaction in numbers.transactions() {
            let _ = engine.apply(transaction);

            let before = engine.clone();
            let dispute = Transaction { kind: Kind::Dispute, ..transaction };
            if engine.apply(dispute).is_ok() {
                let resolve = Transaction { kind: Kind::Resolve, ..transaction };
                assert!(engine.apply(resolve).is_ok());
                assert_eq!(engine, before);
                tried += 1;
            }
        }
    }
    assert!(tried > 0);
}

#[test]
fn a_transaction_touches_only_its_client() {
    let mut numbers = Numbers(12);
    for _ in 0..200 {
        let mut engine = Engine::new();
        for transaction in numbers.transactions() {
            let before = engine.clone();
            let _ = engine.apply(transaction);
            assert!(engine.accounts().contains_key(&transaction.client));
            for client in (0..4).filter(|&client| client != transaction.client) {
                assert_eq!(account(&engine, client), account(&before, client));
                assert_eq!(
                    engine.accounts().contains_key(&client),
                    before.accounts().contains_key(&client)
                );
            }
        }
    }
}

#[test]
fn totals_change_by_what_is_paid() {
    let mut numbers = Numbers(13);
    for _ in 0..200 {
        let mut engine = Engine::new();
        for transaction in numbers.transactions() {
            let total = |engine: &Engine| {
                let account = account(engine, transaction.client);
                account.available.units() + account.held.units()
            };
            let before = account(&engine, transaction.client);
            let old_total = total(&engine);
            let change = match (engine.apply(transaction), transaction.kind) {
                (Err(_), _) => 0,
                (Ok(()), Kind::Deposit(amount)) => amount.units(),
                (Ok(()), Kind::Withdrawal(amount)) => {
                    assert!(before.available >= amount);
                    -amount.units()
                }
                (Ok(()), Kind::Dispute | Kind::Resolve) => 0,
                (Ok(()), Kind::Chargeback) => {
                    let after = account(&engine, transaction.client);
                    assert_eq!(after.available, before.available);
                    after.held.units() - before.held.units()
                }
            };
            assert_eq!(total(&engine), old_total + change);
        }
    }
}

#[test]
fn a_frozen_account_never_changes_again() {
    let mut numbers = Numbers(14);
    for _ in 0..200 {
        let mut engine = Engine::new();
        for transaction in numbers.transactions() {
            let before = account(&engine, transaction.client);
            let outcome = engine.apply(transaction);
            if before.locked {
                assert_eq!(outcome, Err(RejectReason::AccountLocked));
                assert_eq!(account(&engine, transaction.client), before);
            }
        }
    }
}

#[test]
fn transactions_of_different_clients_commute() {
    let mut numbers = Numbers(15);
    for _ in 0..500 {
        let engine = apply_all(&numbers.transactions());
        let first = numbers.transaction();
        let second = numbers.transaction();
        if first.client == second.client || first.tx == second.tx {
            continue;
        }
        let mut one = engine.clone();
        let mut other = engine;
        let (one_first, one_second) = (one.apply(first), one.apply(second));
        let (other_second, other_first) = (other.apply(second), other.apply(first));
        assert_eq!((one_first, one_second), (other_first, other_second));
        assert_eq!(one, other);
    }
}

#[test]
fn clients_can_be_processed_apart() {
    let mut numbers = Numbers(16);
    for _ in 0..200 {
        // Ids are unique across clients: each client keeps to its own.
        let transactions: Vec<Transaction> = numbers
            .transactions()
            .into_iter()
            .map(|transaction| Transaction {
                tx: transaction.tx * 4 + TxId::from(transaction.client),
                ..transaction
            })
            .collect();
        let together = apply_all(&transactions);
        for client in 0..4 {
            let own: Vec<Transaction> = transactions
                .iter()
                .copied()
                .filter(|transaction| transaction.client == client)
                .collect();
            assert_eq!(account(&apply_all(&own), client), account(&together, client));
        }
    }
}

#[test]
fn a_charged_back_deposit_stays_charged_back() {
    let mut engine = Engine::new();
    let mut apply = |tx: TxId, kind: Kind| engine.apply(Transaction { client: 1, tx, kind });
    apply(1, Kind::Deposit(Money::from_units(100))).unwrap();
    apply(1, Kind::Dispute).unwrap();
    apply(1, Kind::Chargeback).unwrap();
    for kind in [Kind::Dispute, Kind::Resolve, Kind::Chargeback] {
        assert_eq!(apply(1, kind), Err(RejectReason::AccountLocked));
    }
    let other = engine.apply(Transaction { client: 2, tx: 1, kind: Kind::Dispute });
    assert_eq!(other, Err(RejectReason::ClientMismatch));
}

#[test]
fn there_is_one_account_for_each_client_named() {
    let mut numbers = Numbers(17);
    for _ in 0..50 {
        let transactions = numbers.transactions();
        let engine = apply_all(&transactions);
        let mut named: Vec<ClientId> = transactions.iter().map(|t| t.client).collect();
        named.sort_unstable();
        named.dedup();
        assert_eq!(engine.accounts().len(), named.len());
        assert!(named.iter().all(|client| engine.accounts().contains_key(client)));
    }
}

#[test]
fn different_amounts_print_differently() {
    let mut printed: Vec<String> = Vec::new();
    for units in (-20_100..20_100).step_by(67).chain([i64::MIN, i64::MAX]) {
        printed.push(Money::from_units(units).to_string());
    }
    let length = printed.len();
    printed.sort_unstable();
    printed.dedup();
    assert_eq!(printed.len(), length);
}

#[test]
fn whole_numbers_take_zeros_in_front_and_a_point_behind() {
    for whole in ["0", "7", "1203", "922337203685477", "922337203685478", "x"] {
        let plain = whole.parse::<Money>();
        assert_eq!(format!("{whole}.").parse::<Money>(), plain);
        assert_eq!(format!("000{whole}").parse::<Money>(), plain);
    }
}

#[test]
fn transactions_without_a_new_deposit_commute_under_one_id() {
    let engine = apply_all(&[Transaction {
        client: 1,
        tx: 5,
        kind: Kind::Deposit(Money::from_units(10)),
    }]);
    let first = Transaction { client: 1, tx: 5, kind: Kind::Dispute };
    for kind in [
        Kind::Deposit(Money::from_units(1)),
        Kind::Withdrawal(Money::from_units(0)),
        Kind::Dispute,
        Kind::Resolve,
        Kind::Chargeback,
    ] {
        let second = Transaction { client: 2, tx: 5, kind };
        let mut one = engine.clone();
        let mut other = engine.clone();
        let (one_first, one_second) = (one.apply(first), one.apply(second));
        let (other_second, other_first) = (other.apply(second), other.apply(first));
        assert_eq!((one_first, one_second), (other_first, other_second));
        assert_eq!(one, other);
    }
}

#[test]
fn an_id_taken_by_another_client_declines_a_deposit() {
    let mut engine = Engine::new();
    let mut deposit = |client: ClientId| {
        engine.apply(Transaction {
            client,
            tx: 1,
            kind: Kind::Deposit(Money::from_units(3)),
        })
    };
    assert_eq!(deposit(1), Ok(()));
    assert_eq!(deposit(2), Err(RejectReason::DuplicateTx));
    assert_eq!(account(&engine, 2), Account::default());
}

#[test]
fn an_amount_of_zero_is_accepted() {
    let mut engine = Engine::new();
    for (tx, kind) in [
        (1, Kind::Deposit(Money::zero())),
        (2, Kind::Withdrawal(Money::zero())),
        (1, Kind::Dispute),
        (1, Kind::Resolve),
    ] {
        assert_eq!(engine.apply(Transaction { client: 1, tx, kind }), Ok(()));
    }
    assert_eq!(account(&engine, 1), Account::default());
}

#[test]
fn a_withdrawal_may_reuse_the_id_of_a_deposit() {
    let mut engine = Engine::new();
    let mut apply = |kind: Kind| engine.apply(Transaction { client: 1, tx: 1, kind });
    assert_eq!(apply(Kind::Deposit(Money::from_units(3))), Ok(()));
    assert_eq!(apply(Kind::Withdrawal(Money::from_units(2))), Ok(()));
    assert_eq!(apply(Kind::Dispute), Ok(()));
    assert_eq!(account(&engine, 1).available.units(), -2);
    assert_eq!(account(&engine, 1).held.units(), 3);
    assert_eq!(account(&engine, 1).total().to_string(), "0.0001");
}

#[test]
fn no_input_makes_held_funds_negative() {
    let lines = "type,client,tx,amount\n\
        deposit,1,1,5\n\
        deposit,1,2,-5\n\
        dispute,1,1\n\
        dispute,1,2\n\
        resolve,1,1\n\
        resolve,1,1\n\
        chargeback,1,1\n";
    let mut engine = Engine::new();
    for row in rows_of(lines).into_iter().flatten() {
        let _ = engine.apply(row);
    }
    assert_eq!(account(&engine, 1).held, Money::zero());
    assert_eq!(account(&engine, 1).available.units(), 50_000);
}

#[test]
fn a_withdrawal_undoes_a_deposit() {
    let mut engine = Engine::new();
    for (tx, units) in [(1, 0), (2, 7), (3, i64::MAX - 7)] {
        let before = account(&engine, 1);
        let amount = Money::from_units(units);
        for kind in [Kind::Deposit(amount), Kind::Withdrawal(amount)] {
            assert_eq!(engine.apply(Transaction { client: 1, tx, kind }), Ok(()));
        }
        assert_eq!(account(&engine, 1), before);
        let kind = Kind::Deposit(Money::from_units(1));
        engine.apply(Transaction { client: 1, tx: tx + 10, kind }).unwrap();
    }
}

#[test]
fn a_release_undoes_a_hold_of_the_highest_amount() {
    let mut engine = Engine::new();
    let mut apply = |kind: Kind| engine.apply(Transaction { client: 1, tx: 1, kind });
    assert_eq!(apply(Kind::Deposit(Money::from_units(i64::MAX))), Ok(()));
    assert_eq!(apply(Kind::Withdrawal(Money::from_units(i64::MAX))), Ok(()));
    assert_eq!(apply(Kind::Dispute), Ok(()));
    assert_eq!(apply(Kind::Resolve), Ok(()));
    assert_eq!(account(&engine, 1), Account::default());
}
