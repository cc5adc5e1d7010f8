//! The CSV boundary: rows in, accounts out.

use std::collections::BTreeMap;
use std::collections::HashMap;
use std::str::FromStr;

use csv::Error as CsvError;
use vstd::prelude::*;
use vstd::std_specs::convert::FromSpecImpl;
use vstd::std_specs::iter::IteratorSpec;
use vstd::string::StringExecFns;

use crate::csv_calls;
use crate::csv_calls::ReadFailure;
use crate::engine::Account;
use crate::model::ClientId;
use crate::model::Kind;
use crate::model::RejectReason;
use crate::model::Transaction;
use crate::model::TxId;
use crate::money;
use crate::money::Money;
use crate::text;

verus! {

/// A failure that stops the run. Ignored rows use [`RejectReason`] instead.
#[derive(Debug)]
pub enum Error {
    /// The input could not be read.
    Csv(CsvError),
    /// The header does not name a column the engine needs.
    MissingColumn(&'static str),
}

impl From<CsvError> for Error {
    fn from(error: CsvError) -> (wrapped: Self) {
        Error::Csv(error)
    }
}

impl FromSpecImpl<CsvError> for Error {
    open spec fn obeys_from_spec() -> bool {
        true
    }

    open spec fn from_spec(error: CsvError) -> Self {
        Error::Csv(error)
    }
}

/// What is said of an input without the column `name`.
pub open spec fn missing_column_text(name: Seq<char>) -> Seq<char> {
    "input has no "@ + text::debug_text(name) + " column"@
}

/// What is said of an input that could not be read.
pub fn unreadable(detail: &str) -> (shown: String)
    ensures
        shown@ == "reading CSV: "@ + detail@,
{
    let mut shown = "reading CSV: ".to_owned();
    shown.append(detail);
    shown
}

impl Error {
    /// Says what went wrong.
    ///
    /// What follows `reading CSV: ` is the text that the `csv` crate has for
    /// its error.
    #[must_use]
    pub fn to_string(&self) -> (shown: String)
        ensures
            match self {
                Error::Csv(error) => exists|detail: Seq<char>| #[trigger]
                    csv_calls::is_description(*error, detail) && shown@ == "reading CSV: "@
                        + detail,
                Error::MissingColumn(name) => {
                    &&& shown@ == missing_column_text(name@)
                    &&& text::is_word(name@) ==> shown@ == "input has no "@ + text::in_quotes(name@)
                        + " column"@
                },
            },
    {
        match self {
            Error::Csv(error) => {
                let detail = csv_calls::description(error);
                unreadable(detail.as_str())
            },
            Error::MissingColumn(name) => {
                let mut shown = "input has no ".to_owned();
                shown.append(text::quoted(name).as_str());
                shown.append(" column");
                shown
            },
        }
    }
}

/// Where each needed column sits in a row.
///
/// Read from the header, not assumed, so reordered or extra columns are
/// handled instead of silently misread.
#[derive(Clone, Copy, Debug)]
pub struct Columns {
    pub kind: usize,
    pub client: usize,
    pub tx: usize,
    pub amount: Option<usize>,
}

/// Where the first heading stands that is `name` whatever its case.
pub open spec fn position_of(headings: Seq<Seq<char>>, name: Seq<char>) -> Option<int>
    decreases headings.len(),
{
    if headings.len() == 0 {
        None
    } else {
        match position_of(headings.drop_last(), name) {
            Some(i) => Some(i),
            None => if text::same_but_for_case(headings.last(), name) {
                Some(headings.len() - 1)
            } else {
                None
            },
        }
    }
}

/// The first needed column that the headings do not name.
pub open spec fn missing_column(headings: Seq<Seq<char>>) -> Option<Seq<char>> {
    if position_of(headings, "type"@) is None {
        Some("type"@)
    } else if position_of(headings, "client"@) is None {
        Some("client"@)
    } else if position_of(headings, "tx"@) is None {
        Some("tx"@)
    } else {
        None
    }
}

/// Where the headings put each column.
pub open spec fn columns_of(headings: Seq<Seq<char>>) -> Columns {
    Columns {
        kind: position_of(headings, "type"@)->0 as usize,
        client: position_of(headings, "client"@)->0 as usize,
        tx: position_of(headings, "tx"@)->0 as usize,
        amount: match position_of(headings, "amount"@) {
            Some(i) => Some(i as usize),
            None => None,
        },
    }
}

/// Finds the first heading that is the ASCII text `name` whatever its case.
fn position(headers: &[&str], name: &str) -> (found: Option<usize>)
    requires
        name.is_ascii(),
    ensures
        match found {
            Some(i) => position_of(csv_calls::texts(headers@), name@) == Some(i as int),
            None => position_of(csv_calls::texts(headers@), name@) is None,
        },
{
    let ghost headings = csv_calls::texts(headers@);
    let mut i: usize = 0;
    while i < headers.len()
        invariant
            i <= headers.len(),
            name.is_ascii(),
            headings == csv_calls::texts(headers@),
            position_of(headings.take(i as int), name@) is None,
        decreases headers.len() - i,
    {
        proof {
            assert(headings.take(i + 1).drop_last() =~= headings.take(i as int));
            assert(headings.take(i + 1).last() == headers@[i as int]@);
        }
        if text::eq_ignore_ascii_case(headers[i], name) {
            proof {
                position_of_prefix(headings, name@, i + 1);
            }
            return Some(i);
        }
        i += 1;
    }
    assert(headings.take(i as int) =~= headings);
    None
}

/// A name found among the first headings is found there among all of them.
proof fn position_of_prefix(headings: Seq<Seq<char>>, name: Seq<char>, n: int)
    requires
        0 <= n <= headings.len(),
        position_of(headings.take(n), name) is Some,
    ensures
        position_of(headings, name) == position_of(headings.take(n), name),
    decreases headings.len(),
{
    if n < headings.len() {
        assert(headings.drop_last().take(n) =~= headings.take(n));
        position_of_prefix(headings.drop_last(), name, n);
    } else {
        assert(headings.take(n) =~= headings);
    }
}

impl Columns {
    /// Reads the columns from the headings of the input, whatever their case.
    pub fn from_headers(headers: &[&str]) -> (columns: Result<Self, Error>)
        ensures
            match columns {
                Ok(c) => missing_column(csv_calls::texts(headers@)) is None && c == columns_of(
                    csv_calls::texts(headers@),
                ),
                Err(Error::MissingColumn(name)) => missing_column(csv_calls::texts(headers@))
                    == Some(name@),
                Err(Error::Csv(_)) => false,
            },
    {
        proof {
            reveal_strlit("type");
            reveal_strlit("client");
            reveal_strlit("tx");
            reveal_strlit("amount");
        }
        let kind = match position(headers, "type") {
            Some(i) => i,
            None => {
                return Err(Error::MissingColumn("type"));
            },
        };
        let client = match position(headers, "client") {
            Some(i) => i,
            None => {
                return Err(Error::MissingColumn("client"));
            },
        };
        let tx = match position(headers, "tx") {
            Some(i) => i,
            None => {
                return Err(Error::MissingColumn("tx"));
            },
        };
        // Only deposits and withdrawals need it.
        let amount = position(headers, "amount");
        Ok(Columns { kind, client, tx, amount })
    }
}

/// The field at `index`, which is empty past the end of a short row.
pub open spec fn field_at(fields: Seq<Seq<char>>, index: int) -> Seq<char> {
    if index < fields.len() {
        fields[index]
    } else {
        Seq::empty()
    }
}

/// The amount a row carries, if it carries one.
pub open spec fn amount_of(fields: Seq<Seq<char>>, columns: Columns) -> Option<int> {
    match columns.amount {
        Some(index) => money::parsed(field_at(fields, index as int)),
        None => None,
    }
}

/// What a row means: a transaction, or the reason it is none. Ids are looked
/// at first, then the type, then the amount where the type needs one.
pub open spec fn row_meaning(fields: Seq<Seq<char>>, columns: Columns) -> Result<
    Transaction,
    RejectReason,
> {
    let client = text::unsigned(field_at(fields, columns.client as int), ClientId::MAX as nat);
    let tx = text::unsigned(field_at(fields, columns.tx as int), TxId::MAX as nat);
    let name = field_at(fields, columns.kind as int);
    if client is None || tx is None {
        Err(RejectReason::MalformedRow)
    } else {
        match kind_of(name, amount_of(fields, columns)) {
            Ok(kind) => Ok(Transaction { client: client->0 as ClientId, tx: tx->0 as TxId, kind }),
            Err(reason) => Err(reason),
        }
    }
}

/// What a type name means in a row with the given amount.
pub open spec fn kind_of(name: Seq<char>, amount: Option<int>) -> Result<Kind, RejectReason> {
    if text::same_but_for_case(name, "deposit"@) {
        match amount {
            Some(units) => Ok(Kind::Deposit(Money(units as i64))),
            None => Err(RejectReason::AmountShape),
        }
    } else if text::same_but_for_case(name, "withdrawal"@) {
        match amount {
            Some(units) => Ok(Kind::Withdrawal(Money(units as i64))),
            None => Err(RejectReason::AmountShape),
        }
    } else if text::same_but_for_case(name, "dispute"@) {
        Ok(Kind::Dispute)
    } else if text::same_but_for_case(name, "resolve"@) {
        Ok(Kind::Resolve)
    } else if text::same_but_for_case(name, "chargeback"@) {
        Ok(Kind::Chargeback)
    } else {
        Err(RejectReason::UnknownType)
    }
}

/// The field at `index`, which is empty past the end of a short row.
fn field<'a>(fields: &[&'a str], index: usize) -> (value: &'a str)
    ensures
        value@ == field_at(csv_calls::texts(fields@), index as int),
{
    if index < fields.len() {
        fields[index]
    } else {
        proof {
            reveal_strlit("");
            assert(""@ =~= Seq::<char>::empty());
        }
        ""
    }
}

/// Turns one row into a transaction, or says why it cannot be one.
pub fn parse(fields: &[&str], columns: Columns) -> (row: Result<Transaction, RejectReason>)
    ensures
        row == row_meaning(csv_calls::texts(fields@), columns),
{
    proof {
        reveal_strlit("deposit");
        reveal_strlit("withdrawal");
        reveal_strlit("dispute");
        reveal_strlit("resolve");
        reveal_strlit("chargeback");
    }
    let client: ClientId = match text::read_unsigned(
        field(fields, columns.client),
        ClientId::MAX as u64,
    ) {
        Some(id) => id as ClientId,
        None => {
            return Err(RejectReason::MalformedRow);
        },
    };
    let tx: TxId = match text::read_unsigned(field(fields, columns.tx), TxId::MAX as u64) {
        Some(id) => id as TxId,
        None => {
            return Err(RejectReason::MalformedRow);
        },
    };
    let name = field(fields, columns.kind);
    let kind = if text::eq_ignore_ascii_case(name, "deposit") {
        Kind::Deposit(amount(fields, columns)?)
    } else if text::eq_ignore_ascii_case(name, "withdrawal") {
        Kind::Withdrawal(amount(fields, columns)?)
    } else if text::eq_ignore_ascii_case(name, "dispute") {
        Kind::Dispute
    } else if text::eq_ignore_ascii_case(name, "resolve") {
        Kind::Resolve
    } else if text::eq_ignore_ascii_case(name, "chargeback") {
        Kind::Chargeback
    } else {
        return Err(RejectReason::UnknownType);
    };
    Ok(Transaction { client, tx, kind })
}

/// Reads the amount a deposit or withdrawal must carry.
///
/// A row can omit it by being short or by leaving the field empty; both mean
/// the same thing to a transaction that requires one.
fn amount(fields: &[&str], columns: Columns) -> (amount: Result<Money, RejectReason>)
    ensures
        match amount {
            Ok(money) => amount_of(csv_calls::texts(fields@), columns) == Some(money@),
            Err(reason) => reason == RejectReason::AmountShape && amount_of(
                csv_calls::texts(fields@),
                columns,
            ) is None,
        },
{
    match columns.amount {
        Some(index) => match Money::from_str(field(fields, index)) {
            Ok(money) => Ok(money),
            Err(_) => Err(RejectReason::AmountShape),
        },
        None => Err(RejectReason::AmountShape),
    }
}

/// Whether a row only looks like one: it has no text in any field.
pub open spec fn is_blank(fields: Seq<Seq<char>>) -> bool {
    forall|i: int| 0 <= i < fields.len() ==> (#[trigger] fields[i]).len() == 0
}

/// What a record comes to: nothing if it is blank, otherwise what its fields
/// mean without the whitespace around them. One that is not UTF-8 is malformed.
pub open spec fn record_meaning(record: Option<Seq<Seq<char>>>, columns: Columns) -> Option<
    Result<Transaction, RejectReason>,
> {
    match record {
        Some(fields) => if is_blank(csv_calls::trimmed(fields)) {
            None
        } else {
            Some(row_meaning(csv_calls::trimmed(fields), columns))
        },
        None => Some(Err(RejectReason::MalformedRow)),
    }
}

/// What records come to, in order.
pub open spec fn records_meaning(
    records: Seq<Option<Seq<Seq<char>>>>,
    columns: Columns,
) -> Seq<Result<Transaction, RejectReason>>
    decreases records.len(),
{
    if records.len() == 0 {
        Seq::empty()
    } else {
        let rest = records_meaning(records.drop_first(), columns);
        match record_meaning(records[0], columns) {
            Some(row) => seq![row] + rest,
            None => rest,
        }
    }
}

/// The headings of an input, or [`None`] if they are not UTF-8.
pub open spec fn headings(source: Seq<u8>) -> Option<Seq<Seq<char>>> {
    match csv_calls::first_record(csv_calls::csv_records(source)) {
        Some(fields) => Some(csv_calls::trimmed(fields)),
        None => None,
    }
}

/// The rows of an input with usable headings, in order.
pub open spec fn rows(source: Seq<u8>) -> Seq<Result<Transaction, RejectReason>> {
    records_meaning(
        csv_calls::later_records(csv_calls::csv_records(source)),
        columns_of(headings(source)->0),
    )
}

/// Takes transactions out of a CSV source, one row at a time.
#[derive(Debug)]
pub struct TransactionReader<'a> {
    reader: csv::Reader<&'a [u8]>,
    columns: Columns,
    record: csv::StringRecord,
}

impl<'a> View for TransactionReader<'a> {
    type V = Seq<Result<Transaction, RejectReason>>;

    /// The rows still to come.
    closed spec fn view(&self) -> Seq<Result<Transaction, RejectReason>> {
        records_meaning(csv_calls::pending(self.reader), self.columns)
    }
}

impl<'a> TransactionReader<'a> {
    /// Reads the header and prepares to take rows.
    ///
    /// Whitespace around fields is trimmed, and rows are allowed to be shorter
    /// than the header: `dispute, 1, 1` has no amount field at all.
    pub fn new(source: &'a [u8]) -> (result: Result<Self, Error>)
        ensures
            match result {
                Ok(reader) => {
                    &&& headings(source@) is Some
                    &&& missing_column(headings(source@)->0) is None
                    &&& reader@ == rows(source@)
                },
                Err(Error::MissingColumn(name)) => {
                    &&& headings(source@) is Some
                    &&& missing_column(headings(source@)->0) == Some(name@)
                },
                Err(Error::Csv(_)) => headings(source@) is None,
            },
    {
        let mut reader = csv_calls::open_source(source);
        let headers = match csv_calls::read_headers(&mut reader) {
            Ok(headers) => headers,
            Err(error) => {
                return Err(Error::from(error));
            },
        };
        let names = csv_calls::record_fields(&headers);
        let columns = Columns::from_headers(names.as_slice())?;
        Ok(TransactionReader { reader, columns, record: csv_calls::new_record() })
    }

    /// Reads the next row, or [`None`] at end of input.
    ///
    /// Two failure levels: the outer [`Error`] ends the run, the inner
    /// [`RejectReason`] skips one row. Bytes in memory can always be read, so
    /// only the inner one ever comes.
    pub fn read(&mut self) -> (row: Result<Option<Result<Transaction, RejectReason>>, Error>)
        ensures
            match row {
                Ok(None) => old(self)@.len() == 0 && final(self)@ == old(self)@,
                Ok(Some(row)) => {
                    &&& old(self)@.len() > 0
                    &&& row == old(self)@[0]
                    &&& final(self)@ == old(self)@.drop_first()
                },
                Err(_) => false,
            },
    {
        loop
            invariant
                self@ == old(self)@,
            decreases csv_calls::pending(self.reader).len(),
        {
            let ghost records = csv_calls::pending(self.reader);
            match csv_calls::read_record(&mut self.reader, &mut self.record) {
                Ok(false) => {
                    return Ok(None);
                },
                Ok(true) => {
                    let fields = csv_calls::record_fields(&self.record);
                    // The reader drops empty lines; this drops the ones that
                    // only look empty.
                    if all_empty(fields.as_slice()) {
                        continue;
                    }
                    let row = parse(fields.as_slice(), self.columns);
                    assert(self@ =~= old(self)@.drop_first());
                    return Ok(Some(row));
                },
                // Boundaries are found by byte and already passed, so a
                // non-UTF-8 field spoils only its own row.
                Err(ReadFailure::NotUtf8) => {
                    assert(self@ =~= old(self)@.drop_first());
                    return Ok(Some(Err(RejectReason::MalformedRow)));
                },
                Err(ReadFailure::Other(error)) => {
                    return Err(Error::from(error));
                },
            }
        }
    }
}

/// Whether there is no text in any field.
fn all_empty(fields: &[&str]) -> (blank: bool)
    ensures
        blank == is_blank(csv_calls::texts(fields@)),
{
    let ghost texts = csv_calls::texts(fields@);
    let mut i: usize = 0;
    while i < fields.len()
        invariant
            i <= fields.len(),
            texts == csv_calls::texts(fields@),
            forall|j: int| 0 <= j < i ==> (#[trigger] texts[j]).len() == 0,
        decreases fields.len() - i,
    {
        if !fields[i].is_empty() {
            assert(texts[i as int].len() != 0);
            return false;
        }
        i += 1;
    }
    true
}

/// The output column headings, in order.
pub open spec fn output_header() -> Seq<Seq<char>> {
    seq!["client"@, "available"@, "held"@, "total"@, "locked"@]
}

/// The fields of an account's line, in the order of the headings.
pub open spec fn account_fields(client: ClientId, account: Account) -> Seq<Seq<char>> {
    seq![
        text::decimal(client as nat),
        money::units_text(account.available@),
        money::units_text(account.held@),
        money::units_text(account.available@ + account.held@),
        if account.locked {
            "true"@
        } else {
            "false"@
        },
    ]
}

/// The lines of the accounts whose client id is below `n`, in the order of the
/// ids.
pub open spec fn account_lines(accounts: Map<ClientId, Account>, n: nat) -> Seq<char>
    decreases n,
{
    if n == 0 {
        Seq::empty()
    } else {
        let client = (n - 1) as ClientId;
        let before = account_lines(accounts, (n - 1) as nat);
        if accounts.contains_key(client) {
            before + csv_calls::joined(account_fields(client, accounts[client])).push('\n')
        } else {
            before
        }
    }
}

/// All accounts as CSV: a header, then a line for each, ordered by client id.
pub open spec fn accounts_text(accounts: Map<ClientId, Account>) -> Seq<char> {
    csv_calls::joined(output_header()).push('\n') + account_lines(accounts, 65_536)
}

/// Encoding two texts one after the other is encoding them joined.
proof fn encoding_joins(a: Seq<char>, b: Seq<char>)
    ensures
        vstd::utf8::encode_utf8(a + b) == vstd::utf8::encode_utf8(a) + vstd::utf8::encode_utf8(b),
    decreases a.len(),
{
    if a.len() == 0 {
        assert(a + b =~= b);
        assert(vstd::utf8::encode_utf8(a) + vstd::utf8::encode_utf8(b)
            =~= vstd::utf8::encode_utf8(b));
    } else {
        assert((a + b).drop_first() =~= a.drop_first() + b);
        encoding_joins(a.drop_first(), b);
        assert(vstd::utf8::encode_utf8(a + b) =~= vstd::utf8::encode_utf8(a)
            + vstd::utf8::encode_utf8(b));
    }
}

/// Where no account stands between two ids, the lines up to either are the
/// same.
pub proof fn no_lines_between(accounts: Map<ClientId, Account>, m: nat, n: nat)
    requires
        m <= n <= 65_536,
        forall|client: ClientId| m <= client < n ==> !accounts.contains_key(client),
    ensures
        account_lines(accounts, m) == account_lines(accounts, n),
    decreases n,
{
    if m < n {
        no_lines_between(accounts, m, (n - 1) as nat);
    }
}

/// A run of digits is plain.
proof fn decimals_are_plain(n: nat)
    ensures
        csv_calls::is_plain(text::decimal(n)),
{
    text::decimal_reads_back(n);
    assert forall|i: int| 0 <= i < text::decimal(n).len() implies #[trigger] text::decimal(n)[i]
        != ',' && text::decimal(n)[i] != '"' && text::decimal(n)[i] != '\r' && text::decimal(n)[i]
        != '\n' by {
        assert(text::is_digit(text::decimal(n)[i]));
    }
}

/// A printed amount is plain.
proof fn amounts_are_plain(units: int)
    ensures
        csv_calls::is_plain(money::units_text(units)),
{
    let magnitude: nat = if units < 0 {
        (-units) as nat
    } else {
        units as nat
    };
    decimals_are_plain(magnitude / 10_000);
    let whole = text::decimal(magnitude / 10_000);
    let s = money::units_text(units);
    let sign_len: int = if units < 0 {
        1
    } else {
        0
    };
    assert forall|i: int| 0 <= i < s.len() implies #[trigger] s[i] != ',' && s[i] != '"' && s[i]
        != '\r' && s[i] != '\n' by {
        if sign_len <= i < sign_len + whole.len() {
            assert(s[i] == whole[i - sign_len]);
        }
    }
}

/// The fields of an account's line as strings.
fn account_row(client: ClientId, account: &Account) -> (row: Vec<String>)
    ensures
        csv_calls::strings(row@) == account_fields(client, *account),
        row@.len() > 0,
        forall|i: int| 0 <= i < row@.len() ==> csv_calls::is_plain(#[trigger] row@[i]@),
{
    let mut id = String::new();
    text::push_decimal(&mut id, client as u128);
    let locked = if account.locked {
        "true"
    } else {
        "false"
    };
    let mut row: Vec<String> = Vec::new();
    row.push(id);
    row.push(account.available.to_string());
    row.push(account.held.to_string());
    row.push(account.total().to_string());
    row.push(locked.to_owned());
    proof {
        reveal_strlit("true");
        reveal_strlit("false");
        decimals_are_plain(client as nat);
        amounts_are_plain(account.available@);
        amounts_are_plain(account.held@);
        amounts_are_plain(account.available@ + account.held@);
        assert(csv_calls::strings(row@) =~= account_fields(client, *account));
    }
    row
}

/// The output column headings as strings.
fn header_row() -> (row: Vec<String>)
    ensures
        csv_calls::strings(row@) == output_header(),
        row@.len() > 0,
        forall|i: int| 0 <= i < row@.len() ==> csv_calls::is_plain(#[trigger] row@[i]@),
{
    let mut row: Vec<String> = Vec::new();
    row.push("client".to_owned());
    row.push("available".to_owned());
    row.push("held".to_owned());
    row.push("total".to_owned());
    row.push("locked".to_owned());
    proof {
        reveal_strlit("client");
        reveal_strlit("available");
        reveal_strlit("held");
        reveal_strlit("total");
        reveal_strlit("locked");
        assert(csv_calls::strings(row@) =~= output_header());
    }
    row
}

/// The accounts in the order of their client ids.
fn by_client(accounts: &HashMap<ClientId, Account>) -> (ordered: BTreeMap<ClientId, Account>)
    ensures
        ordered@ == accounts@,
{
    let mut ordered: BTreeMap<ClientId, Account> = BTreeMap::new();
    let ghost entries = vstd::std_specs::hash::spec_hash_map_iter(accounts).remaining();
    for (client, account) in it: accounts.iter()
        invariant
            it.seq() == entries,
            entries == vstd::std_specs::hash::spec_hash_map_iter(accounts).remaining(),
            forall|id: ClientId| #[trigger]
                ordered@.contains_key(id) ==> accounts@.contains_key(id) && ordered@[id]
                    == accounts@[id],
            forall|j: int| 0 <= j < it.index() ==> #[trigger] ordered@.contains_key(*entries[j].0),
    {
        assert(accounts@.contains_key(*entries[it.index()].0));
        ordered.insert(*client, *account);
    }
    proof {
        assert forall|id: ClientId| accounts@.contains_key(id) implies ordered@.contains_key(
            id,
        ) by {
            assert(entries.contains((&id, &accounts@[id])));
            let j = choose|j: int| 0 <= j < entries.len() && entries[j] == (&id, &accounts@[id]);
            assert(ordered@.contains_key(*entries[j].0));
        }
        assert(ordered@ =~= accounts@);
    }
    ordered
}

/// Whether `ids` are the clients of `accounts`, each once and in order.
spec fn in_order(accounts: Map<ClientId, Account>, ids: Seq<ClientId>) -> bool {
    &&& forall|i: int, j: int| 0 <= i < j < ids.len() ==> ids[i] < ids[j]
    &&& forall|client: ClientId| #[trigger] accounts.contains_key(client) ==> ids.contains(client)
    &&& forall|i: int| 0 <= i < ids.len() ==> accounts.contains_key(#[trigger] ids[i])
}

/// What an ordered map walks through is in order.
proof fn listed_in_order(rows: Map<ClientId, Account>, entries: Seq<(&ClientId, &Account)>)
    requires
        vstd::std_specs::btree::increasing_seq(
            entries.map_values(|kv: (&ClientId, &Account)| *kv.0),
        ),
        forall|i: int| 0 <= i < entries.len() ==> rows.contains_key(*(#[trigger] entries[i]).0),
        forall|id: ClientId| #[trigger] rows.contains_key(id) ==> entries.contains((&id, &rows[id])),
    ensures
        in_order(rows, entries.map_values(|kv: (&ClientId, &Account)| *kv.0)),
{
    broadcast use vstd::std_specs::btree::axiom_increasing_seq_meaning;

    let ids = entries.map_values(|kv: (&ClientId, &Account)| *kv.0);
    assert forall|i: int, j: int| 0 <= i < j < ids.len() implies ids[i] < ids[j] by {
        assert(vstd::std_specs::cmp::OrdSpec::cmp_spec(&ids[i], &ids[j]) is Less);
    }
    assert forall|id: ClientId| #[trigger] rows.contains_key(id) implies ids.contains(id) by {
        assert(entries.contains((&id, &rows[id])));
        let j = choose|j: int| 0 <= j < entries.len() && entries[j] == (&id, &rows[id]);
        assert(ids[j] == id);
    }
}

/// One more than the last of the first `n` ids, or zero if there is none.
spec fn bound(ids: Seq<ClientId>, n: int) -> nat {
    if n == 0 {
        0
    } else {
        (ids[n - 1] + 1) as nat
    }
}

/// Going on from one id to the next adds that client's line.
proof fn next_line(accounts: Map<ClientId, Account>, ids: Seq<ClientId>, n: int)
    requires
        in_order(accounts, ids),
        0 <= n < ids.len(),
    ensures
        account_lines(accounts, bound(ids, n + 1)) == account_lines(accounts, bound(ids, n))
            + csv_calls::joined(account_fields(ids[n], accounts[ids[n]])).push('\n'),
{
    assert forall|client: ClientId| bound(ids, n) <= client < ids[n] implies !accounts.contains_key(
        client,
    ) by {
        if accounts.contains_key(client) {
            let j = choose|j: int| 0 <= j < ids.len() && ids[j] == client;
            assert(ids[j] == client);
            if j < n - 1 {
                assert(ids[j] < ids[n - 1]);
            } else if j > n {
                assert(ids[n] < ids[j]);
            }
        }
    }
    if n > 0 {
        assert(ids[n - 1] < ids[n]);
    }
    assert(accounts.contains_key(ids[n]));
    no_lines_between(accounts, bound(ids, n), ids[n] as nat);
}

/// After the last id nothing is left to write.
proof fn no_line_after(accounts: Map<ClientId, Account>, ids: Seq<ClientId>)
    requires
        in_order(accounts, ids),
    ensures
        account_lines(accounts, bound(ids, ids.len() as int)) == account_lines(accounts, 65_536),
{
    let n = ids.len() as int;
    assert forall|client: ClientId| bound(ids, n) <= client < 65_536 implies !accounts.contains_key(
        client,
    ) by {
        if accounts.contains_key(client) {
            let j = choose|j: int| 0 <= j < ids.len() && ids[j] == client;
            assert(ids[j] == client);
            if j < n - 1 {
                assert(ids[j] < ids[n - 1]);
            }
        }
    }
    no_lines_between(accounts, bound(ids, n), 65_536);
}

/// Appends one line of CSV to what has been written.
fn push_line(sink: &mut Vec<u8>, fields: &Vec<String>) -> (result: Result<(), Error>)
    requires
        fields@.len() > 0,
        forall|i: int| 0 <= i < fields@.len() ==> csv_calls::is_plain(#[trigger] fields@[i]@),
    ensures
        result is Ok,
        final(sink)@ == old(sink)@ + vstd::utf8::encode_utf8(
            csv_calls::joined(csv_calls::strings(fields@)).push('\n'),
        ),
{
    let mut line = match csv_calls::write_record(fields) {
        Ok(line) => line,
        Err(error) => {
            return Err(Error::from(error));
        },
    };
    sink.append(&mut line);
    Ok(())
}

/// Writes accounts as CSV, ordered by client id.
///
/// Order is not significant to the format. Sorting makes runs byte-identical,
/// which is what the tests compare against.
pub fn write_accounts(sink: &mut Vec<u8>, accounts: &HashMap<ClientId, Account>) -> (result: Result<
    (),
    Error,
>)
    ensures
        result is Ok,
        final(sink)@ == old(sink)@ + vstd::utf8::encode_utf8(accounts_text(accounts@)),
{
    let rows = by_client(accounts);
    let listed = rows.iter();
    let ghost entries = listed.remaining();
    let ghost ids = entries.map_values(|kv: (&ClientId, &Account)| *kv.0);
    proof {
        listed_in_order(rows@, entries);
    }
    let ghost header = csv_calls::joined(output_header()).push('\n');
    push_line(sink, &header_row())?;
    assert(header + account_lines(accounts@, 0) =~= header);
    for (client, account) in it: listed
        invariant
            rows@ == accounts@,
            it.seq() == entries,
            ids == entries.map_values(|kv: (&ClientId, &Account)| *kv.0),
            forall|i: int|
                0 <= i < entries.len() ==> accounts@[*(#[trigger] entries[i]).0] == *entries[i].1,
            in_order(accounts@, ids),
            sink@ == old(sink)@ + vstd::utf8::encode_utf8(
                header + account_lines(accounts@, bound(ids, it.index())),
            ),
    {
        let ghost before = header + account_lines(accounts@, bound(ids, it.index()));
        let ghost line = csv_calls::joined(account_fields(*client, *account)).push('\n');
        push_line(sink, &account_row(*client, account))?;
        proof {
            next_line(accounts@, ids, it.index());
            encoding_joins(before, line);
            assert(before + line =~= header + account_lines(
                accounts@,
                bound(ids, it.index() + 1),
            ));
        }
    }
    proof {
        no_line_after(accounts@, ids);
    }
    Ok(())
}

} // verus!
