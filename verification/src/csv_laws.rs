//! What holds of every input and every output: a row means what stands under the
//! names of its columns, wherever they stand and whatever whitespace surrounds
//! it, and what is written of the accounts says what they are.

use vstd::prelude::*;

use crate::csv_calls;
use crate::csv_io;
use crate::csv_io::Columns;
use crate::engine::Account;
use crate::model::ClientId;
use crate::model::Kind;
use crate::model::RejectReason;
use crate::model::Transaction;
use crate::money;
use crate::text;

verus! {

/// What a row has under the first heading that is `name`, or [`None`] if there
/// is no such heading.
pub open spec fn under(
    headings: Seq<Seq<char>>,
    fields: Seq<Seq<char>>,
    name: Seq<char>,
) -> Option<Seq<char>> {
    match csv_io::position_of(headings, name) {
        Some(i) => Some(csv_io::field_at(fields, i)),
        None => None,
    }
}

/// The names of the columns that are looked for.
pub open spec fn is_looked_for(name: Seq<char>) -> bool {
    ||| name == "type"@
    ||| name == "client"@
    ||| name == "tx"@
    ||| name == "amount"@
}

/// Where a name is found, and that nothing before it is that name.
pub proof fn position_is_the_first(headings: Seq<Seq<char>>, name: Seq<char>)
    ensures
        match csv_io::position_of(headings, name) {
            Some(i) => {
                &&& 0 <= i < headings.len()
                &&& text::same_but_for_case(headings[i], name)
                &&& forall|j: int|
                    0 <= j < i ==> !text::same_but_for_case(#[trigger] headings[j], name)
            },
            None => forall|j: int|
                0 <= j < headings.len() ==> !text::same_but_for_case(#[trigger] headings[j], name),
        },
    decreases headings.len(),
{
    if headings.len() > 0 {
        let init = headings.drop_last();
        position_is_the_first(init, name);
        assert forall|j: int| 0 <= j < init.len() implies #[trigger] headings[j] == init[j] by {}
    }
}

/// A row means what stands under the names that are looked for: two rows, each
/// under headings of its own, that have the same under each of those names mean
/// the same, whatever else they hold and in whatever order.
pub proof fn only_the_named_columns_matter(
    headings: Seq<Seq<char>>,
    fields: Seq<Seq<char>>,
    other_headings: Seq<Seq<char>>,
    other_fields: Seq<Seq<char>>,
)
    requires
        headings.len() <= usize::MAX,
        other_headings.len() <= usize::MAX,
        forall|name: Seq<char>| #[trigger]
            is_looked_for(name) ==> under(headings, fields, name) == under(
                other_headings,
                other_fields,
                name,
            ),
    ensures
        csv_io::missing_column(headings) == csv_io::missing_column(other_headings),
        csv_io::missing_column(headings) is None ==> csv_io::row_meaning(
            fields,
            csv_io::columns_of(headings),
        ) == csv_io::row_meaning(other_fields, csv_io::columns_of(other_headings)),
{
    assert(is_looked_for("type"@));
    assert(is_looked_for("client"@));
    assert(is_looked_for("tx"@));
    assert(is_looked_for("amount"@));
    position_is_the_first(headings, "type"@);
    position_is_the_first(headings, "client"@);
    position_is_the_first(headings, "tx"@);
    position_is_the_first(headings, "amount"@);
    position_is_the_first(other_headings, "type"@);
    position_is_the_first(other_headings, "client"@);
    position_is_the_first(other_headings, "tx"@);
    position_is_the_first(other_headings, "amount"@);
}

/// Whether `order` lists the places below its length, each once.
pub open spec fn is_order(order: Seq<int>) -> bool {
    &&& order.no_duplicates()
    &&& forall|i: int| 0 <= i < order.len() ==> 0 <= #[trigger] order[i] < order.len()
    &&& forall|i: int| 0 <= i < order.len() ==> #[trigger] order.contains(i)
}

/// Whether `other` has at each place what `record` has at the place that
/// `order` gives for it, where a short record has empty fields past its end.
/// Fields past the end of `order` stay where they are.
pub open spec fn reordered(
    record: Seq<Seq<char>>,
    other: Seq<Seq<char>>,
    order: Seq<int>,
) -> bool {
    forall|i: int|
        i >= 0 ==> #[trigger] csv_io::field_at(other, i) == csv_io::field_at(
            record,
            if i < order.len() {
                order[i]
            } else {
                i
            },
        )
}

/// Whether no later heading of the same name is moved in front of the first.
/// This holds of every order if no two headings have the same name.
pub open spec fn keeps_firsts(headings: Seq<Seq<char>>, order: Seq<int>) -> bool {
    forall|name: Seq<char>, i: int, k: int|
        #![trigger is_looked_for(name), order[i], order[k]]
        is_looked_for(name) && 0 <= k < i < order.len() && csv_io::position_of(headings, name)
            == Some(order[i]) ==> !text::same_but_for_case(headings[order[k]], name)
}

/// A name is found where the order puts the heading that has it.
proof fn position_moves_along(
    headings: Seq<Seq<char>>,
    other_headings: Seq<Seq<char>>,
    order: Seq<int>,
    name: Seq<char>,
)
    requires
        is_order(order),
        headings.len() == order.len(),
        other_headings.len() == order.len(),
        reordered(headings, other_headings, order),
        keeps_firsts(headings, order),
        is_looked_for(name),
    ensures
        match csv_io::position_of(other_headings, name) {
            Some(i) => csv_io::position_of(headings, name) == Some(order[i]) && 0 <= i
                < order.len(),
            None => csv_io::position_of(headings, name) is None,
        },
{
    position_is_the_first(headings, name);
    position_is_the_first(other_headings, name);
    assert forall|k: int| 0 <= k < order.len() implies #[trigger] other_headings[k]
        == headings[order[k]] by {
        assert(csv_io::field_at(other_headings, k) == csv_io::field_at(headings, order[k]));
    }
    match csv_io::position_of(headings, name) {
        Some(place) => {
            assert(order.contains(place));
            let i = choose|i: int| 0 <= i < order.len() && order[i] == place;
            assert(other_headings[i] == headings[place]);
            let found = csv_io::position_of(other_headings, name)->0;
            if found < i {
                assert(order[found] != order[i]);
                assert(other_headings[found] == headings[order[found]]);
            }
        },
        None => {
            if csv_io::position_of(other_headings, name) is Some {
                let found = csv_io::position_of(other_headings, name)->0;
                assert(other_headings[found] == headings[order[found]]);
            }
        },
    }
}

/// Moving the columns around does not change what a row means, as long as the
/// first heading of a name stays the first.
pub proof fn column_order_does_not_change_a_row(
    headings: Seq<Seq<char>>,
    fields: Seq<Seq<char>>,
    other_headings: Seq<Seq<char>>,
    other_fields: Seq<Seq<char>>,
    order: Seq<int>,
)
    requires
        is_order(order),
        order.len() <= usize::MAX,
        headings.len() == order.len(),
        other_headings.len() == order.len(),
        reordered(headings, other_headings, order),
        reordered(fields, other_fields, order),
        keeps_firsts(headings, order),
    ensures
        csv_io::missing_column(headings) == csv_io::missing_column(other_headings),
        csv_io::missing_column(headings) is None ==> csv_io::row_meaning(
            fields,
            csv_io::columns_of(headings),
        ) == csv_io::row_meaning(other_fields, csv_io::columns_of(other_headings)),
{
    assert forall|name: Seq<char>| #[trigger] is_looked_for(name) implies under(
        headings,
        fields,
        name,
    ) == under(other_headings, other_fields, name) by {
        position_moves_along(headings, other_headings, order, name);
        if csv_io::position_of(other_headings, name) is Some {
            let i = csv_io::position_of(other_headings, name)->0;
            assert(csv_io::field_at(other_fields, i) == csv_io::field_at(fields, order[i]));
        }
    }
    only_the_named_columns_matter(headings, fields, other_headings, other_fields);
}

/// Trimming goes field by field.
proof fn trimming_keeps_places(record: Seq<Seq<char>>)
    ensures
        csv_calls::trimmed(record).len() == record.len(),
        forall|i: int|
            i >= 0 ==> #[trigger] csv_io::field_at(csv_calls::trimmed(record), i) == text::trim(
                csv_io::field_at(record, i),
            ),
{
}

/// Trimming keeps records reordered.
proof fn trimming_keeps_order(record: Seq<Seq<char>>, other: Seq<Seq<char>>, order: Seq<int>)
    requires
        is_order(order),
        reordered(record, other, order),
    ensures
        reordered(csv_calls::trimmed(record), csv_calls::trimmed(other), order),
{
    trimming_keeps_places(record);
    trimming_keeps_places(other);
    assert forall|i: int| i >= 0 implies #[trigger] csv_io::field_at(csv_calls::trimmed(other), i)
        == csv_io::field_at(
        csv_calls::trimmed(record),
        if i < order.len() {
            order[i]
        } else {
            i
        },
    ) by {
        assert(csv_io::field_at(other, i) == csv_io::field_at(
            record,
            if i < order.len() {
                order[i]
            } else {
                i
            },
        ));
    }
}

/// A record is blank in one order if it is in the other.
proof fn reordering_keeps_blanks(record: Seq<Seq<char>>, other: Seq<Seq<char>>, order: Seq<int>)
    requires
        is_order(order),
        reordered(record, other, order),
    ensures
        csv_io::is_blank(record) == csv_io::is_blank(other),
{
    if csv_io::is_blank(record) {
        assert forall|i: int| 0 <= i < other.len() implies (#[trigger] other[i]).len() == 0 by {
            let from = if i < order.len() {
                order[i]
            } else {
                i
            };
            assert(csv_io::field_at(other, i) == csv_io::field_at(record, from));
            if from < record.len() {
                assert(record[from].len() == 0);
            }
        }
    }
    if csv_io::is_blank(other) {
        assert forall|i: int| 0 <= i < record.len() implies (#[trigger] record[i]).len() == 0 by {
            let to = if i < order.len() {
                assert(order.contains(i));
                choose|k: int| 0 <= k < order.len() && order[k] == i
            } else {
                i
            };
            assert(csv_io::field_at(other, to) == csv_io::field_at(record, i));
            if to < other.len() {
                assert(other[to].len() == 0);
            }
        }
    }
}

/// Whether each of the other records is the record in its place, reordered.
pub open spec fn all_reordered(
    records: Seq<Option<Seq<Seq<char>>>>,
    others: Seq<Option<Seq<Seq<char>>>>,
    order: Seq<int>,
) -> bool {
    &&& records.len() == others.len()
    &&& forall|i: int|
        0 <= i < records.len() ==> match #[trigger] records[i] {
            Some(fields) => others[i] is Some && reordered(fields, others[i]->0, order),
            None => others[i] is None,
        }
}

/// What follows the first of reordered records is reordered too.
proof fn later_records_are_reordered(
    records: Seq<Option<Seq<Seq<char>>>>,
    others: Seq<Option<Seq<Seq<char>>>>,
    order: Seq<int>,
)
    requires
        all_reordered(records, others, order),
    ensures
        all_reordered(
            csv_calls::later_records(records),
            csv_calls::later_records(others),
            order,
        ),
{
    if records.len() > 0 {
        let later = records.drop_first();
        let other_later = others.drop_first();
        assert forall|i: int| 0 <= i < later.len() implies match #[trigger] later[i] {
            Some(fields) => other_later[i] is Some && reordered(fields, other_later[i]->0, order),
            None => other_later[i] is None,
        } by {
            assert(later[i] == records[i + 1]);
            assert(other_later[i] == others[i + 1]);
        }
    }
}

/// Reordered records under reordered headings come to the same rows.
proof fn reordered_records_mean_the_same(
    headings: Seq<Seq<char>>,
    records: Seq<Option<Seq<Seq<char>>>>,
    other_headings: Seq<Seq<char>>,
    others: Seq<Option<Seq<Seq<char>>>>,
    order: Seq<int>,
)
    requires
        is_order(order),
        order.len() <= usize::MAX,
        headings.len() == order.len(),
        other_headings.len() == order.len(),
        reordered(headings, other_headings, order),
        keeps_firsts(headings, order),
        csv_io::missing_column(headings) is None,
        all_reordered(records, others, order),
    ensures
        csv_io::records_meaning(records, csv_io::columns_of(headings)) == csv_io::records_meaning(
            others,
            csv_io::columns_of(other_headings),
        ),
    decreases records.len(),
{
    if records.len() > 0 {
        later_records_are_reordered(records, others, order);
        reordered_records_mean_the_same(
            headings,
            records.drop_first(),
            other_headings,
            others.drop_first(),
            order,
        );
        match records[0] {
            Some(record) => {
                let other = others[0]->0;
                trimming_keeps_order(record, other, order);
                reordering_keeps_blanks(
                    csv_calls::trimmed(record),
                    csv_calls::trimmed(other),
                    order,
                );
                column_order_does_not_change_a_row(
                    headings,
                    csv_calls::trimmed(record),
                    other_headings,
                    csv_calls::trimmed(other),
                    order,
                );
            },
            None => {},
        }
    }
}

/// Moving the columns of an input around changes neither whether its headings
/// are usable nor what its rows mean, as long as the first heading of a name
/// stays the first.
pub proof fn column_order_does_not_change_the_rows(
    source: Seq<u8>,
    other: Seq<u8>,
    order: Seq<int>,
)
    requires
        is_order(order),
        order.len() <= usize::MAX,
        all_reordered(csv_calls::csv_records(source), csv_calls::csv_records(other), order),
        csv_io::headings(source) is Some ==> csv_io::headings(source)->0.len() == order.len()
            && csv_io::headings(other)->0.len() == order.len() && keeps_firsts(
            csv_io::headings(source)->0,
            order,
        ),
    ensures
        csv_io::headings(source) is Some == csv_io::headings(other) is Some,
        csv_io::headings(source) is Some ==> csv_io::missing_column(csv_io::headings(source)->0)
            == csv_io::missing_column(csv_io::headings(other)->0),
        csv_io::headings(source) is Some && csv_io::missing_column(csv_io::headings(source)->0)
            is None ==> csv_io::rows(source) == csv_io::rows(other),
{
    let records = csv_calls::csv_records(source);
    let others = csv_calls::csv_records(other);
    let first = csv_calls::first_record(records);
    if records.len() > 0 {
        assert(records[0] == first);
    }
    if first is Some {
        let other_first = csv_calls::first_record(others)->0;
        trimming_keeps_order(first->0, other_first, order);
        let headings = csv_io::headings(source)->0;
        let other_headings = csv_io::headings(other)->0;
        column_order_does_not_change_a_row(
            headings,
            Seq::empty(),
            other_headings,
            Seq::empty(),
            order,
        );
        if csv_io::missing_column(headings) is None {
            let later = csv_calls::later_records(records);
            let other_later = csv_calls::later_records(others);
            later_records_are_reordered(records, others, order);
            reordered_records_mean_the_same(headings, later, other_headings, other_later, order);
        }
    }
}

/// Whether `padded` is `field` with whitespace around it.
pub open spec fn is_padded(field: Seq<char>, padded: Seq<char>) -> bool {
    exists|left: Seq<char>, right: Seq<char>| #[trigger]
        text::all_whitespace(left) && #[trigger] text::all_whitespace(right) && padded == left
            + field + right
}

/// Whether each of the other records is the record in its place, with
/// whitespace around its fields.
pub open spec fn all_padded(
    records: Seq<Option<Seq<Seq<char>>>>,
    others: Seq<Option<Seq<Seq<char>>>>,
) -> bool {
    &&& records.len() == others.len()
    &&& forall|i: int|
        0 <= i < records.len() ==> match #[trigger] records[i] {
            Some(fields) => {
                &&& others[i] is Some
                &&& fields.len() == others[i]->0.len()
                &&& forall|k: int|
                    0 <= k < fields.len() ==> is_padded(#[trigger] fields[k], others[i]->0[k])
            },
            None => others[i] is None,
        }
}

/// What follows the first of padded records is padded too.
proof fn later_records_are_padded(
    records: Seq<Option<Seq<Seq<char>>>>,
    others: Seq<Option<Seq<Seq<char>>>>,
)
    requires
        all_padded(records, others),
    ensures
        all_padded(csv_calls::later_records(records), csv_calls::later_records(others)),
{
    if records.len() > 0 {
        let later = records.drop_first();
        let other_later = others.drop_first();
        assert forall|i: int| 0 <= i < later.len() implies match #[trigger] later[i] {
            Some(fields) => {
                &&& other_later[i] is Some
                &&& fields.len() == other_later[i]->0.len()
                &&& forall|k: int|
                    0 <= k < fields.len() ==> is_padded(#[trigger] fields[k], other_later[i]->0[k])
            },
            None => other_later[i] is None,
        } by {
            assert(later[i] == records[i + 1]);
            assert(other_later[i] == others[i + 1]);
        }
    }
}

/// Padding does not outlast trimming.
proof fn padded_records_trim_alike(fields: Seq<Seq<char>>, padded: Seq<Seq<char>>)
    requires
        fields.len() == padded.len(),
        forall|k: int| 0 <= k < fields.len() ==> is_padded(#[trigger] fields[k], padded[k]),
    ensures
        csv_calls::trimmed(fields) == csv_calls::trimmed(padded),
{
    assert forall|k: int| 0 <= k < fields.len() implies text::trim(#[trigger] fields[k])
        == text::trim(padded[k]) by {
        let (left, right) = choose|left: Seq<char>, right: Seq<char>| #[trigger]
            text::all_whitespace(left) && #[trigger] text::all_whitespace(right) && padded[k]
                == left + fields[k] + right;
        text::trim_drops_padding(left, fields[k], right);
    }
    assert(csv_calls::trimmed(fields) =~= csv_calls::trimmed(padded));
}

/// Records with whitespace around their fields come to the same rows.
proof fn padded_records_mean_the_same(
    records: Seq<Option<Seq<Seq<char>>>>,
    others: Seq<Option<Seq<Seq<char>>>>,
    columns: Columns,
)
    requires
        all_padded(records, others),
    ensures
        csv_io::records_meaning(records, columns) == csv_io::records_meaning(others, columns),
    decreases records.len(),
{
    if records.len() > 0 {
        later_records_are_padded(records, others);
        padded_records_mean_the_same(records.drop_first(), others.drop_first(), columns);
        if records[0] is Some {
            padded_records_trim_alike(records[0]->0, others[0]->0);
        }
    }
}

/// Whitespace around the fields of an input, those of its header among them,
/// changes neither its headings nor what its rows mean.
pub proof fn surrounding_whitespace_does_not_change_the_rows(source: Seq<u8>, other: Seq<u8>)
    requires
        all_padded(csv_calls::csv_records(source), csv_calls::csv_records(other)),
    ensures
        csv_io::headings(source) == csv_io::headings(other),
        csv_io::rows(source) == csv_io::rows(other),
{
    let records = csv_calls::csv_records(source);
    let others = csv_calls::csv_records(other);
    if records.len() > 0 {
        if records[0] is Some {
            padded_records_trim_alike(records[0]->0, others[0]->0);
        }
        let later = csv_calls::later_records(records);
        let other_later = csv_calls::later_records(others);
        later_records_are_padded(records, others);
        padded_records_mean_the_same(
            later,
            other_later,
            csv_io::columns_of(csv_io::headings(source)->0),
        );
    } else {
        assert(records =~= others);
    }
}

/// Each record comes to its own row or to none, whatever stands before and
/// behind it: one that cannot be used spoils only itself, and a blank one
/// leaves no trace.
pub proof fn each_record_stands_alone(
    before: Seq<Option<Seq<Seq<char>>>>,
    record: Option<Seq<Seq<char>>>,
    after: Seq<Option<Seq<Seq<char>>>>,
    columns: Columns,
)
    ensures
        csv_io::records_meaning(before + seq![record] + after, columns) == csv_io::records_meaning(
            before,
            columns,
        ) + (match csv_io::record_meaning(record, columns) {
            Some(row) => seq![row],
            None => Seq::empty(),
        }) + csv_io::records_meaning(after, columns),
    decreases before.len(),
{
    let all = before + seq![record] + after;
    if before.len() == 0 {
        assert(all.drop_first() =~= after);
        assert(all[0] == record);
        assert(csv_io::records_meaning(before, columns) =~= Seq::<
            Result<Transaction, RejectReason>,
        >::empty());
    } else {
        assert(all.drop_first() =~= before.drop_first() + seq![record] + after);
        assert(all[0] == before[0]);
        each_record_stands_alone(before.drop_first(), record, after, columns);
    }
    assert(csv_io::records_meaning(all, columns) =~= csv_io::records_meaning(before, columns) + (
    match csv_io::record_meaning(record, columns) {
        Some(row) => seq![row],
        None => Seq::empty(),
    }) + csv_io::records_meaning(after, columns));
}

/// A row has what it has at each place, and nothing past its end.
pub proof fn a_row_is_empty_past_its_end(fields: Seq<Seq<char>>, i: int)
    requires
        0 <= i,
    ensures
        i < fields.len() ==> csv_io::field_at(fields, i) == fields[i],
        i >= fields.len() ==> csv_io::field_at(fields, i).len() == 0,
{
}

/// Whether `i` is the place of the first heading that is `name` whatever its
/// case.
pub open spec fn is_first(headings: Seq<Seq<char>>, name: Seq<char>, i: int) -> bool {
    &&& 0 <= i < headings.len()
    &&& text::same_but_for_case(headings[i], name)
    &&& forall|j: int| 0 <= j < i ==> !text::same_but_for_case(#[trigger] headings[j], name)
}

/// Whether no heading is `name`, whatever its case.
pub open spec fn is_absent(headings: Seq<Seq<char>>, name: Seq<char>) -> bool {
    forall|j: int|
        0 <= j < headings.len() ==> !text::same_but_for_case(#[trigger] headings[j], name)
}

/// Headings are usable exactly if they name a type, a client and a transaction,
/// and otherwise the first of these that is absent is the one missed. Each
/// column is the first of its name. There may be no amount.
pub proof fn columns_are_found_by_name(headings: Seq<Seq<char>>)
    requires
        headings.len() <= usize::MAX,
    ensures
        csv_io::missing_column(headings) == Some("type"@) <==> is_absent(headings, "type"@),
        csv_io::missing_column(headings) == Some("client"@) <==> is_absent(headings, "client"@)
            && !is_absent(headings, "type"@),
        csv_io::missing_column(headings) == Some("tx"@) <==> is_absent(headings, "tx"@)
            && !is_absent(headings, "type"@) && !is_absent(headings, "client"@),
        csv_io::missing_column(headings) is None <==> !is_absent(headings, "type"@) && !is_absent(
            headings,
            "client"@,
        ) && !is_absent(headings, "tx"@),
        csv_io::missing_column(headings) is None ==> {
            let columns = csv_io::columns_of(headings);
            &&& is_first(headings, "type"@, columns.kind as int)
            &&& is_first(headings, "client"@, columns.client as int)
            &&& is_first(headings, "tx"@, columns.tx as int)
            &&& match columns.amount {
                Some(i) => is_first(headings, "amount"@, i as int),
                None => is_absent(headings, "amount"@),
            }
        },
{
    reveal_strlit("type");
    reveal_strlit("client");
    reveal_strlit("tx");
    assert("type"@.len() != "client"@.len());
    assert("type"@.len() != "tx"@.len());
    assert("client"@.len() != "tx"@.len());
    position_is_the_first(headings, "type"@);
    position_is_the_first(headings, "client"@);
    position_is_the_first(headings, "tx"@);
    position_is_the_first(headings, "amount"@);
}

/// A row is malformed exactly if what stands under client or tx is no id. Each
/// row that is a transaction has the very ids that stand there.
pub proof fn a_row_has_the_ids_it_writes(fields: Seq<Seq<char>>, columns: Columns)
    ensures
        ({
            let meaning = csv_io::row_meaning(fields, columns);
            let client = text::unsigned(csv_io::field_at(fields, columns.client as int), 65_535);
            let tx = text::unsigned(csv_io::field_at(fields, columns.tx as int), 4_294_967_295);
            &&& meaning == Err::<Transaction, RejectReason>(RejectReason::MalformedRow)
                <==> client is None || tx is None
            &&& meaning matches Ok(t) ==> client == Some(t.client as nat) && tx == Some(t.tx as nat)
        }),
{
}

/// What a row does is what stands under type, whatever its case. Only a deposit
/// and a withdrawal look at the amount: they are of exactly the amount that
/// stands there, and without one the row is none. A row of another type is
/// unknown, whatever else it holds.
pub proof fn a_row_has_the_type_and_amount_it_writes(fields: Seq<Seq<char>>, columns: Columns)
    requires
        text::unsigned(csv_io::field_at(fields, columns.client as int), 65_535) is Some,
        text::unsigned(csv_io::field_at(fields, columns.tx as int), 4_294_967_295) is Some,
    ensures
        ({
            let meaning = csv_io::row_meaning(fields, columns);
            let name = csv_io::field_at(fields, columns.kind as int);
            let amount = match columns.amount {
                Some(i) => money::parsed(csv_io::field_at(fields, i as int)),
                None => None,
            };
            let deposit = text::same_but_for_case(name, "deposit"@);
            let withdrawal = text::same_but_for_case(name, "withdrawal"@);
            let dispute = text::same_but_for_case(name, "dispute"@);
            let resolve = text::same_but_for_case(name, "resolve"@);
            let chargeback = text::same_but_for_case(name, "chargeback"@);
            &&& deposit && amount is Some ==> (meaning matches Ok(t) && t.kind matches Kind::Deposit(
                money,
            ) && money.0 == amount->0)
            &&& withdrawal && amount is Some ==> (
            meaning matches Ok(t) && t.kind matches Kind::Withdrawal(money) && money.0
                == amount->0)
            &&& meaning == Err::<Transaction, RejectReason>(RejectReason::AmountShape) <==> (deposit
                || withdrawal) && amount is None
            &&& dispute <==> (meaning matches Ok(t) && t.kind is Dispute)
            &&& resolve <==> (meaning matches Ok(t) && t.kind is Resolve)
            &&& chargeback <==> (meaning matches Ok(t) && t.kind is Chargeback)
            &&& meaning == Err::<Transaction, RejectReason>(RejectReason::UnknownType)
                <==> !deposit && !withdrawal && !dispute && !resolve && !chargeback
        }),
{
    let name = csv_io::field_at(fields, columns.kind as int);
    reveal_strlit("deposit");
    reveal_strlit("withdrawal");
    reveal_strlit("dispute");
    reveal_strlit("resolve");
    reveal_strlit("chargeback");
    if text::same_but_for_case(name, "deposit"@) {
        assert(text::lower(name[1]) == text::lower("deposit"@[1]));
        assert(text::lower(name[0]) == text::lower("deposit"@[0]));
    }
    if text::same_but_for_case(name, "dispute"@) {
        assert(text::lower(name[1]) == text::lower("dispute"@[1]));
        assert(text::lower(name[0]) == text::lower("dispute"@[0]));
    }
    if text::same_but_for_case(name, "resolve"@) {
        assert(text::lower(name[0]) == text::lower("resolve"@[0]));
    }
    if text::same_but_for_case(name, "withdrawal"@) {
        assert(text::lower(name[0]) == text::lower("withdrawal"@[0]));
    }
    if text::same_but_for_case(name, "chargeback"@) {
        assert(text::lower(name[0]) == text::lower("chargeback"@[0]));
    }
}

/// Whether a row has the fields of a transaction under the headings that are
/// looked for, written as they are printed: the ids in base ten, the name of
/// the type, and the amount with four decimal places if the type has one.
pub open spec fn writes(
    headings: Seq<Seq<char>>,
    fields: Seq<Seq<char>>,
    t: Transaction,
) -> bool {
    &&& under(headings, fields, "client"@) == Some(text::decimal(t.client as nat))
    &&& under(headings, fields, "tx"@) == Some(text::decimal(t.tx as nat))
    &&& match t.kind {
        Kind::Deposit(amount) => {
            &&& under(headings, fields, "type"@) == Some("deposit"@)
            &&& under(headings, fields, "amount"@) == Some(money::units_text(amount.0 as int))
        },
        Kind::Withdrawal(amount) => {
            &&& under(headings, fields, "type"@) == Some("withdrawal"@)
            &&& under(headings, fields, "amount"@) == Some(money::units_text(amount.0 as int))
        },
        Kind::Dispute => under(headings, fields, "type"@) == Some("dispute"@),
        Kind::Resolve => under(headings, fields, "type"@) == Some("resolve"@),
        Kind::Chargeback => under(headings, fields, "type"@) == Some("chargeback"@),
    }
}

/// A transaction that is written out is read back as itself, whatever its ids
/// and wherever its columns stand, unless its amount is negative.
pub proof fn a_written_transaction_is_read_back(
    headings: Seq<Seq<char>>,
    fields: Seq<Seq<char>>,
    t: Transaction,
)
    requires
        headings.len() <= usize::MAX,
        writes(headings, fields, t),
        t.kind matches Kind::Deposit(amount) ==> amount.0 >= 0,
        t.kind matches Kind::Withdrawal(amount) ==> amount.0 >= 0,
    ensures
        csv_io::missing_column(headings) is None,
        csv_io::row_meaning(fields, csv_io::columns_of(headings)) == Ok::<
            Transaction,
            RejectReason,
        >(t),
{
    let columns = csv_io::columns_of(headings);
    position_is_the_first(headings, "type"@);
    position_is_the_first(headings, "client"@);
    position_is_the_first(headings, "tx"@);
    position_is_the_first(headings, "amount"@);
    text::a_written_number_is_read_back(t.client as nat, 65_535);
    text::a_written_number_is_read_back(t.tx as nat, 4_294_967_295);
    a_row_has_the_ids_it_writes(fields, columns);
    a_row_has_the_type_and_amount_it_writes(fields, columns);
    match t.kind {
        Kind::Deposit(amount) => money::printing_then_parsing_is_the_identity(amount.0 as int),
        Kind::Withdrawal(amount) => money::printing_then_parsing_is_the_identity(amount.0 as int),
        _ => {},
    }
}

/// A record that is not UTF-8 is a malformed row, one with nothing but
/// whitespace in it is no row at all, and any other is the row that its fields
/// make without the whitespace around them.
pub proof fn what_a_record_comes_to(fields: Seq<Seq<char>>, columns: Columns)
    ensures
        csv_io::record_meaning(None, columns) == Some(
            Err::<Transaction, RejectReason>(RejectReason::MalformedRow),
        ),
        csv_io::record_meaning(Some(fields), columns) is None <==> forall|i: int|
            0 <= i < fields.len() ==> text::trim(#[trigger] fields[i]).len() == 0,
        csv_io::record_meaning(Some(fields), columns) matches Some(row) ==> row
            == csv_io::row_meaning(
            fields.map_values(|field: Seq<char>| text::trim(field)),
            columns,
        ),
{
    let trimmed = csv_calls::trimmed(fields);
    if csv_io::is_blank(trimmed) {
        assert forall|i: int| 0 <= i < fields.len() implies text::trim(#[trigger] fields[i]).len()
            == 0 by {
            assert(trimmed[i].len() == 0);
        }
    } else {
        let i = choose|i: int| 0 <= i < trimmed.len() && (#[trigger] trimmed[i]).len() != 0;
        assert(text::trim(fields[i]).len() != 0);
    }
}

/// The first record of an input is its header, and each later one is a record
/// of its own. An input without any record has a header without headings.
pub proof fn the_first_record_is_the_header(source: Seq<u8>)
    ensures
        ({
            let records = csv_calls::csv_records(source);
            let header = if records.len() == 0 {
                Some(Seq::empty())
            } else {
                records[0]
            };
            let columns = csv_io::columns_of(csv_io::headings(source)->0);
            &&& csv_io::headings(source) is Some <==> header is Some
            &&& header matches Some(fields) ==> csv_io::headings(source) == Some(
                fields.map_values(|field: Seq<char>| text::trim(field)),
            )
            &&& records.len() > 0 ==> csv_io::rows(source) == csv_io::records_meaning(
                records.subrange(1, records.len() as int),
                columns,
            )
            &&& records.len() <= 1 ==> csv_io::rows(source).len() == 0
            &&& csv_io::records_meaning(Seq::empty(), columns).len() == 0
        }),
{
    let records = csv_calls::csv_records(source);
    if records.len() > 0 {
        assert(csv_calls::later_records(records) =~= records.subrange(1, records.len() as int));
    }
}

/// What is written of an account says what it is: under the heading of each
/// field, in order, the client, the available and the held funds, their sum,
/// and whether the account is frozen.
pub proof fn a_line_says_what_the_account_is(client: ClientId, account: Account)
    ensures
        csv_io::output_header() == seq![
            "client"@,
            "available"@,
            "held"@,
            "total"@,
            "locked"@,
        ],
        csv_io::account_fields(client, account).len() == 5,
        text::unsigned(csv_io::account_fields(client, account)[0], 65_535) == Some(client as nat),
        written_units(csv_io::account_fields(client, account)[1]) == account.available.0,
        written_units(csv_io::account_fields(client, account)[2]) == account.held.0,
        written_units(csv_io::account_fields(client, account)[3]) == written_units(
            csv_io::account_fields(client, account)[1],
        ) + written_units(csv_io::account_fields(client, account)[2]),
        csv_io::account_fields(client, account)[4] == "true"@ <==> account.locked,
        csv_io::account_fields(client, account)[4] == "false"@ <==> !account.locked,
{
    text::a_written_number_is_read_back(client as nat, 65_535);
    printed_units_are_written(account.available.0 as int);
    printed_units_are_written(account.held.0 as int);
    printed_units_are_written(account.available.0 + account.held.0);
    reveal_strlit("true");
    reveal_strlit("false");
    assert("true"@.len() != "false"@.len());
}

/// The count of ten-thousandths that a text with four decimal places writes:
/// what its digits write, with the sign in front of them.
pub open spec fn written_units(s: Seq<char>) -> int {
    let body = if s[0] == '-' {
        s.skip(1)
    } else {
        s
    };
    let digits = text::value(body.take(body.len() - 5) + body.skip(body.len() - 4));
    if s[0] == '-' {
        -digits
    } else {
        digits as int
    }
}

/// What is printed of a count writes that count.
proof fn printed_units_are_written(units: int)
    ensures
        written_units(money::units_text(units)) == units,
{
    money::amounts_are_printed_with_four_places(units);
}

/// The line of an account is its client, its available and held funds, their
/// sum and whether it is frozen, each printed, with commas between them and a
/// line break behind.
pub proof fn a_line_joins_the_fields_with_commas(client: ClientId, account: Account)
    ensures
        csv_calls::joined(csv_io::account_fields(client, account)).push('\n') == text::decimal(
            client as nat,
        ) + seq![','] + money::units_text(account.available.0 as int) + seq![',']
            + money::units_text(account.held.0 as int) + seq![','] + money::units_text(
            account.available.0 + account.held.0,
        ) + seq![','] + (if account.locked {
            "true"@
        } else {
            "false"@
        }) + seq!['\n'],
        csv_calls::joined(csv_io::output_header()).push('\n')
            == "client,available,held,total,locked\n"@,
{
    five_fields_are_joined(csv_io::account_fields(client, account));
    five_fields_are_joined(csv_io::output_header());
    reveal_strlit("client");
    reveal_strlit("available");
    reveal_strlit("held");
    reveal_strlit("total");
    reveal_strlit("locked");
    reveal_strlit("client,available,held,total,locked\n");
    assert(csv_calls::joined(csv_io::output_header()).push('\n')
        =~= "client,available,held,total,locked\n"@);
}

/// Five fields are joined with four commas.
proof fn five_fields_are_joined(fields: Seq<Seq<char>>)
    requires
        fields.len() == 5,
    ensures
        csv_calls::joined(fields) == fields[0] + seq![','] + fields[1] + seq![','] + fields[2]
            + seq![','] + fields[3] + seq![','] + fields[4],
{
    reveal_with_fuel(csv_calls::joined, 6);
}

/// An account behind all others adds its line at the end and changes no other.
proof fn the_last_account_adds_its_line(
    accounts: Map<ClientId, Account>,
    client: ClientId,
    account: Account,
)
    requires
        forall|other: ClientId| #[trigger] accounts.contains_key(other) ==> other < client,
    ensures
        csv_io::accounts_text(accounts.insert(client, account)) == csv_io::accounts_text(accounts)
            + csv_calls::joined(csv_io::account_fields(client, account)).push('\n'),
{
    let all = accounts.insert(client, account);
    let line = csv_calls::joined(csv_io::account_fields(client, account)).push('\n');
    csv_io::no_lines_between(all, client as nat + 1, 65_536);
    csv_io::no_lines_between(accounts, client as nat, 65_536);
    lines_of_lower_clients(accounts, all, client as nat);
    assert(csv_io::account_lines(all, client as nat + 1) == csv_io::account_lines(
        accounts,
        client as nat,
    ) + line);
    assert(csv_io::accounts_text(all) =~= csv_io::accounts_text(accounts) + line);
}

/// Without accounts only the header is written. An account behind all others
/// adds its line at the end and changes no other. So every account has one
/// line, and the lines are in the order of the clients.
pub proof fn accounts_are_written_one_by_one(
    accounts: Map<ClientId, Account>,
    client: ClientId,
    account: Account,
)
    requires
        forall|other: ClientId| #[trigger] accounts.contains_key(other) ==> other < client,
    ensures
        csv_io::accounts_text(Map::empty()) == "client,available,held,total,locked\n"@,
        csv_io::accounts_text(accounts.insert(client, account)) == csv_io::accounts_text(accounts)
            + (text::decimal(client as nat) + seq![','] + money::units_text(
            account.available.0 as int,
        ) + seq![','] + money::units_text(account.held.0 as int) + seq![','] + money::units_text(
            account.available.0 + account.held.0,
        ) + seq![','] + (if account.locked {
            "true"@
        } else {
            "false"@
        }) + seq!['\n']),
{
    a_line_joins_the_fields_with_commas(client, account);
    the_last_account_adds_its_line(accounts, client, account);
    csv_io::no_lines_between(Map::empty(), 0, 65_536);
    assert(csv_io::accounts_text(Map::empty()) =~= csv_calls::joined(
        csv_io::output_header(),
    ).push('\n'));
}

/// Accounts that agree on the clients below `n` have the same lines for them.
proof fn lines_of_lower_clients(
    a: Map<ClientId, Account>,
    b: Map<ClientId, Account>,
    n: nat,
)
    requires
        n <= 65_536,
        forall|client: ClientId|
            client < n ==> #[trigger] a.contains_key(client) == b.contains_key(client),
        forall|client: ClientId| client < n ==> #[trigger] a[client] == b[client],
    ensures
        csv_io::account_lines(a, n) == csv_io::account_lines(b, n),
    decreases n,
{
    if n > 0 {
        lines_of_lower_clients(a, b, (n - 1) as nat);
        let client = (n - 1) as ClientId;
        assert(a.contains_key(client) == b.contains_key(client));
        assert(a[client] == b[client]);
    }
}

/// The texts of string slices and of strings are what they hold, in order.
pub proof fn texts_are_what_strings_hold(strs: Seq<&str>, list: Seq<String>)
    ensures
        csv_calls::texts(strs).len() == strs.len(),
        forall|i: int| 0 <= i < strs.len() ==> #[trigger] csv_calls::texts(strs)[i] == strs[i]@,
        csv_calls::strings(list).len() == list.len(),
        forall|i: int| 0 <= i < list.len() ==> #[trigger] csv_calls::strings(list)[i] == list[i]@,
{
}

/// A column that is missed is named in quotes.
pub proof fn a_missing_column_is_named(name: Seq<char>)
    ensures
        csv_io::missing_column_text(name) == "input has no "@ + text::debug_text(name)
            + " column"@,
{
}

} // verus!
