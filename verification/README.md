# payments-engine

Takes transactions from a CSV file, applies them to client accounts, and writes
the balances to stdout as CSV. The library is verified with Verus; the command
line around it is ordinary Rust.

```text
type, client, tx, amount        client,available,held,total,locked
deposit, 1, 1, 1.0              1,1.5000,0.0000,1.5000,false
deposit, 2, 2, 2.0        =>    2,2.0000,0.0000,2.0000,false
deposit, 1, 3, 2.0
withdrawal, 1, 4, 1.5
withdrawal, 2, 5, 3.0
```

## Layout

| File | Contents |
| --- | --- |
| `src/money.rs` | `Money`, an exact fixed-point amount |
| `src/model.rs` | `Transaction` and `RejectReason` |
| `src/ledger.rs` | What each transaction does, stated over mathematical maps |
| `src/engine.rs` | `Account`, deposit records, the state machine |
| `src/laws.rs` | What holds of every ledger and every sequence of transactions |
| `src/text.rs` | Digits, case and whitespace |
| `src/csv_calls.rs` | The calls into the `csv` crate, and what is relied on of each |
| `src/csv_io.rs` | Both CSV boundaries |
| `src/csv_laws.rs` | What holds of every input |
| `src/ignored.rs` | The summary of ignored rows |
| `src/run.rs` | A whole run, and what holds of every run |
| `app/main.rs` | Arguments, files, exit status |

## What is relied on

Everything in `src/` is proved except the calls into the `csv` crate in
`src/csv_calls.rs` and one formatting call of `std` in `src/text.rs`. Each says
in its documentation what is claimed of the function it calls.
