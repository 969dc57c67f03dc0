//! What a reader of CSV files finds in the export.

use vstd::prelude::*;

use crate::billing::Subscription;
use crate::calendar::{self, Date};
use crate::csv;
use crate::customers;
use crate::labels;

verus! {

/// Reads the rest of a field whose opening quote has been read: up to the
/// closing quote, with each doubled quote read as one. Gives the value and
/// what follows, or nothing where the field is not closed.
pub open spec fn read_quoted(input: Seq<char>) -> Option<(Seq<char>, Seq<char>)>
    decreases input.len(),
{
    if input.len() == 0 {
        None
    } else if input[0] != '"' {
        match read_quoted(input.skip(1)) {
            Some((value, rest)) => Some((seq![input[0]] + value, rest)),
            None => None,
        }
    } else if input.len() > 1 && input[1] == '"' {
        match read_quoted(input.skip(2)) {
            Some((value, rest)) => Some((seq!['"'] + value, rest)),
            None => None,
        }
    } else {
        Some((seq![], input.skip(1)))
    }
}

/// Reads a field without quotes: up to a comma or the end of the line.
pub open spec fn read_plain(input: Seq<char>) -> (Seq<char>, Seq<char>)
    decreases input.len(),
{
    if input.len() == 0 || input[0] == ',' || input[0] == '\n' || input[0] == '\r' {
        (seq![], input)
    } else {
        let (value, rest) = read_plain(input.skip(1));
        (seq![input[0]] + value, rest)
    }
}

/// Reads a field: its value, and what follows it.
pub open spec fn read_field(input: Seq<char>) -> Option<(Seq<char>, Seq<char>)> {
    if input.len() > 0 && input[0] == '"' {
        read_quoted(input.skip(1))
    } else {
        Some(read_plain(input))
    }
}

/// Reads a line: its fields, and what follows the line.
pub open spec fn read_line(input: Seq<char>) -> Option<(Seq<Seq<char>>, Seq<char>)>
    decreases input.len(),
{
    proof {
        lemma_field_is_no_longer(input);
    }
    match read_field(input) {
        None => None,
        Some((value, rest)) => if rest.len() > 0 && rest[0] == ',' {
            match read_line(rest.skip(1)) {
                Some((values, after)) => Some((seq![value] + values, after)),
                None => None,
            }
        } else if rest.len() > 0 && rest[0] == '\n' {
            Some((seq![value], rest.skip(1)))
        } else {
            None
        },
    }
}

/// Reads a file: the fields of each of its lines.
pub open spec fn read_file(input: Seq<char>) -> Option<Seq<Seq<Seq<char>>>>
    decreases input.len(),
{
    proof {
        lemma_line_is_shorter(input);
    }
    if input.len() == 0 {
        Some(seq![])
    } else {
        match read_line(input) {
            None => None,
            Some((values, rest)) => match read_file(rest) {
                Some(lines) => Some(seq![values] + lines),
                None => None,
            },
        }
    }
}

proof fn lemma_quoted_is_no_longer(input: Seq<char>)
    ensures
        read_quoted(input) matches Some((value, rest)) ==> rest.len() <= input.len(),
    decreases input.len(),
{
    if input.len() > 0 {
        lemma_quoted_is_no_longer(input.skip(1));
        if input.len() > 1 {
            lemma_quoted_is_no_longer(input.skip(2));
        }
    }
}

proof fn lemma_plain_is_no_longer(input: Seq<char>)
    ensures
        read_plain(input).1.len() <= input.len(),
    decreases input.len(),
{
    if input.len() > 0 {
        lemma_plain_is_no_longer(input.skip(1));
    }
}

/// What follows a field is no longer than the input.
pub proof fn lemma_field_is_no_longer(input: Seq<char>)
    ensures
        read_field(input) matches Some((value, rest)) ==> rest.len() <= input.len(),
{
    if input.len() > 0 {
        lemma_quoted_is_no_longer(input.skip(1));
    }
    lemma_plain_is_no_longer(input);
}

/// What follows a line is shorter than the input.
pub proof fn lemma_line_is_shorter(input: Seq<char>)
    ensures
        read_line(input) matches Some((values, rest)) ==> rest.len() < input.len(),
    decreases input.len(),
{
    lemma_field_is_no_longer(input);
    match read_field(input) {
        None => {},
        Some((value, rest)) => {
            if rest.len() > 0 && rest[0] == ',' {
                lemma_line_is_shorter(rest.skip(1));
            }
        },
    }
}

proof fn lemma_doubled_first(value: Seq<char>)
    requires
        value.len() > 0,
    ensures
        csv::doubled(value) == (if value[0] == '"' {
            seq!['"', '"']
        } else {
            seq![value[0]]
        }) + csv::doubled(value.skip(1)),
    decreases value.len(),
{
    let rest = value.skip(1);
    let front = value.drop_last();
    if rest.len() == 0 {
        assert(front =~= seq![]);
        assert(csv::doubled(front) =~= seq![]);
        assert(csv::doubled(rest) =~= seq![]);
    } else {
        lemma_doubled_first(front);
        assert(front.skip(1) =~= rest.drop_last());
    }
}

proof fn lemma_read_doubled(value: Seq<char>, rest: Seq<char>)
    requires
        rest.len() == 0 || rest[0] != '"',
    ensures
        read_quoted(csv::doubled(value) + seq!['"'] + rest) == Some((value, rest)),
    decreases value.len(),
{
    let input = csv::doubled(value) + seq!['"'] + rest;
    if value.len() == 0 {
        assert(input.skip(1) =~= rest);
    } else {
        let tail = value.skip(1);
        lemma_doubled_first(value);
        lemma_read_doubled(tail, rest);
        let read = csv::doubled(tail) + seq!['"'] + rest;
        if value[0] == '"' {
            assert(input.skip(2) =~= read);
        } else {
            assert(input.skip(1) =~= read);
        }
        assert(seq![value[0]] + tail =~= value);
    }
}

proof fn lemma_read_unquoted(value: Seq<char>, rest: Seq<char>)
    requires
        !csv::needs_quotes(value),
        rest.len() == 0 || rest[0] == ',' || rest[0] == '\n',
    ensures
        read_plain(value + rest) == (value, rest),
    decreases value.len(),
{
    let input = value + rest;
    if value.len() == 0 {
        assert(input =~= rest);
    } else {
        let tail = value.skip(1);
        assert(!csv::special(value[0]));
        assert forall|i: int| 0 <= i < tail.len() implies !csv::special(#[trigger] tail[i]) by {
            assert(!csv::special(value[i + 1]));
        }
        lemma_read_unquoted(tail, rest);
        assert(input.skip(1) =~= tail + rest);
        assert(seq![value[0]] + tail =~= value);
    }
}

/// A value written as a field is read as that value, whatever it holds, where
/// a comma, the end of the line or the end of the input follows.
pub proof fn law_field_reads_back(value: Seq<char>, rest: Seq<char>)
    requires
        rest.len() == 0 || rest[0] == ',' || rest[0] == '\n',
    ensures
        read_field(csv::field_text(value) + rest) == Some((value, rest)),
{
    let input = csv::field_text(value) + rest;
    if csv::needs_quotes(value) {
        lemma_read_doubled(value, rest);
        assert(input.skip(1) =~= csv::doubled(value) + seq!['"'] + rest);
    } else {
        lemma_read_unquoted(value, rest);
        if value.len() > 0 {
            assert(!csv::special(value[0]));
        }
    }
}

proof fn lemma_last_field_reads(value: Seq<char>, rest: Seq<char>)
    ensures
        read_line(csv::field_text(value) + (seq!['\n'] + rest)) == Some((seq![value], rest)),
{
    let end = seq!['\n'] + rest;
    law_field_reads_back(value, end);
    assert(end.skip(1) =~= rest);
}

proof fn lemma_first_field_reads(
    value: Seq<char>,
    line: Seq<char>,
    values: Seq<Seq<char>>,
    rest: Seq<char>,
)
    requires
        read_line(line) == Some((values, rest)),
    ensures
        read_line(csv::field_text(value) + (seq![','] + line)) == Some(
            (seq![value] + values, rest),
        ),
{
    let more = seq![','] + line;
    law_field_reads_back(value, more);
    assert(more.skip(1) =~= line);
}

/// A line of four fields is read as these fields.
pub proof fn law_line_reads_back(fields: Seq<Seq<char>>, rest: Seq<char>)
    requires
        fields.len() == 4,
    ensures
        read_line(csv::line_text(fields) + rest) == Some((fields, rest)),
{
    let line_3 = csv::field_text(fields[3]) + (seq!['\n'] + rest);
    let line_2 = csv::field_text(fields[2]) + (seq![','] + line_3);
    let line_1 = csv::field_text(fields[1]) + (seq![','] + line_2);
    let line_0 = csv::field_text(fields[0]) + (seq![','] + line_1);
    let values_2 = seq![fields[2]] + seq![fields[3]];
    let values_1 = seq![fields[1]] + values_2;
    lemma_last_field_reads(fields[3], rest);
    lemma_first_field_reads(fields[2], line_3, seq![fields[3]], rest);
    lemma_first_field_reads(fields[1], line_2, values_2, rest);
    lemma_first_field_reads(fields[0], line_1, values_1, rest);
    assert(csv::line_text(fields) + rest =~= line_0);
    assert(seq![fields[0]] + values_1 =~= fields);
}

/// The names of the columns.
pub open spec fn header_fields() -> Seq<Seq<char>> {
    seq!["name"@, "address"@, "sub_start_date"@, "sub_amount"@]
}

proof fn lemma_header_line()
    ensures
        csv::HEADER@ == csv::line_text(header_fields()),
{
    reveal_strlit("name,address,sub_start_date,sub_amount\n");
    reveal_strlit("name");
    reveal_strlit("address");
    reveal_strlit("sub_start_date");
    reveal_strlit("sub_amount");
    assert(!csv::needs_quotes("name"@));
    assert(!csv::needs_quotes("address"@));
    assert(!csv::needs_quotes("sub_start_date"@));
    assert(!csv::needs_quotes("sub_amount"@));
    assert(csv::HEADER@ =~= csv::line_text(header_fields()));
}

proof fn lemma_rows_have_four_fields(subscriptions: Seq<Subscription>)
    ensures
        forall|k: int|
            0 <= k < csv::csv_rows(subscriptions).len() ==> (#[trigger] csv::csv_rows(
                subscriptions,
            )[k]).len() == 4,
    decreases subscriptions.len(),
{
    let rows = csv::csv_rows(subscriptions);
    if subscriptions.len() > 0 {
        let before = csv::csv_rows(subscriptions.drop_last());
        lemma_rows_have_four_fields(subscriptions.drop_last());
        assert forall|k: int| 0 <= k < rows.len() implies (#[trigger] rows[k]).len() == 4 by {
            if k < before.len() {
                assert(before[k].len() == 4);
            }
        }
    }
}

proof fn lemma_lines_read_back(rows: Seq<Seq<Seq<char>>>, rest: Seq<char>)
    requires
        forall|k: int| 0 <= k < rows.len() ==> (#[trigger] rows[k]).len() == 4,
        read_file(rest) is Some,
    ensures
        read_file(csv::lines_text(rows) + rest) == Some(rows + read_file(rest).unwrap()),
    decreases rows.len(),
{
    let more = read_file(rest).unwrap();
    if rows.len() == 0 {
        assert(csv::lines_text(rows) + rest =~= rest);
        assert(rows + more =~= more);
    } else {
        let front = rows.drop_last();
        let line = csv::line_text(rows.last());
        law_line_reads_back(rows.last(), rest);
        assert(read_file(line + rest) == Some(seq![rows.last()] + more));
        lemma_lines_read_back(front, line + rest);
        assert(csv::lines_text(rows) + rest =~= csv::lines_text(front) + (line + rest));
        assert(front + (seq![rows.last()] + more) =~= rows + more);
    }
}

/// Reading the export gives the names of the columns and then exactly the
/// rows, whatever the names, addresses and dates hold.
pub proof fn law_export_reads_back(subscriptions: Seq<Subscription>)
    ensures
        read_file(csv::csv_text(subscriptions)) == Some(
            seq![header_fields()] + csv::csv_rows(subscriptions),
        ),
{
    let rows = csv::csv_rows(subscriptions);
    let lines = csv::lines_text(rows);
    let end: Seq<char> = seq![];
    lemma_rows_have_four_fields(subscriptions);
    lemma_lines_read_back(rows, end);
    assert(lines + end =~= lines);
    assert(rows + read_file(end).unwrap() =~= rows);
    lemma_header_line();
    law_line_reads_back(header_fields(), lines);
}

/// The rows are those of the expanded customers, in order, each with the
/// customer's name and address.
pub proof fn law_rows_are_the_customers(subscriptions: Seq<Subscription>)
    ensures
        csv::csv_rows(subscriptions).len() == customers::expanded(subscriptions).len(),
        forall|k: int|
            #![trigger csv::csv_rows(subscriptions)[k]]
            0 <= k < csv::csv_rows(subscriptions).len() ==> {
                let customer = customers::expanded(subscriptions)[k];
                &&& csv::csv_rows(subscriptions)[k][0] == labels::display_name(customer)
                &&& csv::csv_rows(subscriptions)[k][1] == csv::address_text(customer)
            },
    decreases subscriptions.len(),
{
    let rows = csv::csv_rows(subscriptions);
    if subscriptions.len() > 0 {
        let before = csv::csv_rows(subscriptions.drop_last());
        law_rows_are_the_customers(subscriptions.drop_last());
        assert forall|k: int| #![trigger rows[k]] 0 <= k < rows.len() implies {
            let customer = customers::expanded(subscriptions)[k];
            &&& rows[k][0] == labels::display_name(customer)
            &&& rows[k][1] == csv::address_text(customer)
        } by {
            if k < before.len() {
                assert(before[k] == rows[k]);
            }
        }
    }
}

/// Whether the customer with an id has a label on the sheets.
pub open spec fn has_label(subscriptions: Seq<Subscription>, id: Seq<char>) -> bool {
    let found = customers::first_seen(customers::expanded(subscriptions));
    let per_page = labels::LABELS_PER_PAGE as int;
    exists|j: int|
        {
            &&& 0 <= j < found.len()
            &&& #[trigger] found[j].id@ == id
            &&& labels::sheet_pages(found)[j / per_page][j % per_page] == labels::label_of(found[j])
        }
}

/// Whether the customer with an id has a row in the export.
pub open spec fn has_row(subscriptions: Seq<Subscription>, id: Seq<char>) -> bool {
    let all = customers::expanded(subscriptions);
    let rows = csv::csv_rows(subscriptions);
    exists|k: int|
        {
            &&& 0 <= k < rows.len()
            &&& #[trigger] all[k].id@ == id
            &&& rows[k][0] == labels::display_name(all[k])
            &&& rows[k][1] == csv::address_text(all[k])
        }
}

/// The export and the labels are about the same customers: a customer has a
/// label exactly if the customer has a row. There are at least as many rows as
/// customers with a label.
pub proof fn law_rows_and_labels_agree(subscriptions: Seq<Subscription>, id: Seq<char>)
    ensures
        has_label(subscriptions, id) <==> has_row(subscriptions, id),
        csv::csv_rows(subscriptions).len() >= customers::first_seen(
            customers::expanded(subscriptions),
        ).len(),
{
    let all = customers::expanded(subscriptions);
    let found = customers::first_seen(all);
    let per_page = labels::LABELS_PER_PAGE as int;
    law_rows_are_the_customers(subscriptions);
    customers::law_same_ids(all, id);
    customers::lemma_first_seen_is_no_longer(all);
    if has_label(subscriptions, id) {
        let j = choose|j: int|
            {
                &&& 0 <= j < found.len()
                &&& #[trigger] found[j].id@ == id
                &&& labels::sheet_pages(found)[j / per_page][j % per_page] == labels::label_of(
                    found[j],
                )
            };
        assert(customers::known(found, found[j].id@));
        let k = choose|k: int| 0 <= k < all.len() && #[trigger] all[k].id@ == id;
        assert(csv::csv_rows(subscriptions)[k][0] == labels::display_name(all[k]));
    }
    if has_row(subscriptions, id) {
        let rows = csv::csv_rows(subscriptions);
        let k = choose|k: int|
            {
                &&& 0 <= k < rows.len()
                &&& #[trigger] all[k].id@ == id
                &&& rows[k][0] == labels::display_name(all[k])
                &&& rows[k][1] == csv::address_text(all[k])
            };
        assert(customers::known(all, all[k].id@));
        let j = choose|j: int| 0 <= j < found.len() && #[trigger] found[j].id@ == id;
        labels::law_each_customer_has_a_label(found, j);
        assert(found[j].id@ == id);
    }
}

/// The text with each pair of quotes as one.
pub open spec fn undoubled(input: Seq<char>) -> Seq<char>
    decreases input.len(),
{
    if input.len() == 0 {
        seq![]
    } else if input.len() > 1 && input[0] == '"' && input[1] == '"' {
        seq!['"'] + undoubled(input.skip(2))
    } else {
        seq![input[0]] + undoubled(input.skip(1))
    }
}

/// A field without the quotes around it and with each pair of quotes inside as
/// one; a field that does not start with a quote stays.
pub open spec fn unquoted(field: Seq<char>) -> Seq<char> {
    if field.len() > 1 && field[0] == '"' {
        undoubled(field.subrange(1, field.len() - 1))
    } else {
        field
    }
}

proof fn lemma_undoubled(value: Seq<char>)
    ensures
        undoubled(csv::doubled(value)) == value,
        csv::doubled(value).len() >= value.len(),
    decreases value.len(),
{
    let input = csv::doubled(value);
    if value.len() > 0 {
        let tail = value.skip(1);
        lemma_doubled_first(value);
        lemma_undoubled(tail);
        if value[0] == '"' {
            assert(input.skip(2) =~= csv::doubled(tail));
        } else {
            assert(input.skip(1) =~= csv::doubled(tail));
        }
        assert(seq![value[0]] + tail =~= value);
    }
}

/// Taking the quotes off a field gives the value. A field is the value itself
/// exactly if that holds no comma, quote or end of line; otherwise it stands
/// between quotes.
pub proof fn law_field_unquotes(value: Seq<char>)
    ensures
        unquoted(csv::field_text(value)) == value,
        csv::field_text(value) == value <==> !csv::needs_quotes(value),
        csv::needs_quotes(value) ==> {
            &&& csv::field_text(value).len() >= 2
            &&& csv::field_text(value)[0] == '"'
            &&& csv::field_text(value).last() == '"'
            &&& csv::field_text(value).subrange(1, csv::field_text(value).len() - 1)
                == csv::doubled(value)
        },
{
    let field = csv::field_text(value);
    lemma_undoubled(value);
    if csv::needs_quotes(value) {
        assert(field.subrange(1, field.len() - 1) =~= csv::doubled(value));
    } else if value.len() > 0 {
        assert(!csv::special(value[0]));
    }
}

/// Different values are different fields.
pub proof fn law_fields_tell_values_apart(value: Seq<char>, other: Seq<char>)
    requires
        csv::field_text(value) == csv::field_text(other),
    ensures
        value == other,
{
    law_field_unquotes(value);
    law_field_unquotes(other);
}

proof fn lemma_row_of_each(subscriptions: Seq<Subscription>) -> (positions: Seq<int>)
    ensures
        positions.len() == csv::csv_rows(subscriptions).len(),
        forall|k: int|
            #![trigger positions[k]]
            0 <= k < positions.len() ==> 0 <= positions[k] < subscriptions.len()
                && subscriptions[positions[k]].customer.object() is Some && csv::csv_rows(
                subscriptions,
            )[k] == csv::row_fields(
                subscriptions[positions[k]],
                subscriptions[positions[k]].customer.object().unwrap(),
            ),
        forall|k: int, l: int| 0 <= k < l < positions.len() ==> positions[k] < positions[l],
        forall|i: int|
            0 <= i < subscriptions.len() && (#[trigger] subscriptions[i]).customer is Object
                ==> positions.contains(i),
    decreases subscriptions.len(),
{
    if subscriptions.len() == 0 {
        seq![]
    } else {
        let front = subscriptions.drop_last();
        let before = lemma_row_of_each(front);
        let last = subscriptions.len() - 1;
        let positions = if subscriptions.last().customer.object() is Some {
            before.push(last)
        } else {
            before
        };
        assert forall|i: int|
            0 <= i < subscriptions.len()
                && (#[trigger] subscriptions[i]).customer is Object implies positions.contains(i) by {
            if i < last {
                assert(front[i].customer is Object);
                let k = choose|k: int| 0 <= k < before.len() && before[k] == i;
                assert(positions[k] == i);
            } else {
                assert(positions[positions.len() - 1] == i);
            }
        }
        positions
    }
}

/// A reader of the export finds the names of the columns and then one row of
/// four fields for each subscription whose customer is expanded, in order: there
/// are places in the list, from first to last, whose subscriptions the rows are
/// of. The fields are what the customer is called, the customer's address, the
/// day on which the subscription started, whatever its end and its state, and
/// the total of its lines.
pub proof fn law_rows_read_back(subscriptions: Seq<Subscription>) -> (positions: Seq<int>)
    ensures
        read_file(csv::csv_text(subscriptions)) is Some,
        ({
            let lines = read_file(csv::csv_text(subscriptions)).unwrap();
            &&& lines.len() == positions.len() + 1
            &&& lines[0] == seq!["name"@, "address"@, "sub_start_date"@, "sub_amount"@]
            &&& forall|k: int|
                #![trigger positions[k]]
                0 <= k < positions.len() ==> {
                    let subscription = subscriptions[positions[k]];
                    let customer = subscription.customer->Object_0;
                    let fields = lines[k + 1];
                    &&& 0 <= positions[k] < subscriptions.len()
                    &&& subscription.customer is Object
                    &&& fields.len() == 4
                    &&& (customer.name matches Some(name) ==> fields[0] == name@)
                    &&& (customer.name is None ==> (customer.email matches Some(email) ==> fields[0]
                        == email@))
                    &&& (customer.name is None && customer.email is None ==> fields[0]
                        == customer.id@)
                    &&& (customer.address matches Some(address) ==> fields[1]
                        == labels::single_line(address))
                    &&& (customer.address is None ==> fields[1].len() == 0)
                    &&& fields[2] == calendar::timestamp_text(subscription.start_date as int)
                    &&& fields[3] == csv::amount_text(csv::total_mills(subscription.items@))
                }
            &&& forall|k: int, date: Date|
                #![trigger positions[k], calendar::date_text(date)]
                0 <= k < positions.len() && date.valid() && date.midnight()
                    <= subscriptions[positions[k]].start_date < date.midnight() + 86_400
                    ==> lines[k + 1][2] == calendar::date_text(date)
        }),
        forall|k: int, l: int| 0 <= k < l < positions.len() ==> positions[k] < positions[l],
        forall|i: int|
            0 <= i < subscriptions.len() && (#[trigger] subscriptions[i]).customer is Object
                ==> positions.contains(i),
{
    law_export_reads_back(subscriptions);
    let positions = lemma_row_of_each(subscriptions);
    let rows = csv::csv_rows(subscriptions);
    let lines = read_file(csv::csv_text(subscriptions)).unwrap();
    assert(lines =~= seq![header_fields()] + rows);
    assert forall|k: int, date: Date|
        #![trigger positions[k], calendar::date_text(date)]
        0 <= k < positions.len() && date.valid() && date.midnight()
            <= subscriptions[positions[k]].start_date < date.midnight()
            + 86_400 implies lines[k + 1][2] == calendar::date_text(date) by {
        let start = subscriptions[positions[k]].start_date as int;
        calendar::law_seconds_of_a_date(date, start - date.midnight());
        assert(lines[k + 1] == rows[k]);
    }
    assert forall|k: int| 0 <= k < positions.len() implies lines[k + 1] == rows[k] by {}
    positions
}

/// Subscriptions that differ only in their id, state and end have the same row.
pub proof fn law_row_is_of_customer_start_and_lines(
    subscription: Subscription,
    other: Subscription,
)
    requires
        subscription.customer == other.customer,
        subscription.start_date == other.start_date,
        subscription.items@ == other.items@,
    ensures
        csv::csv_text(seq![subscription]) == csv::csv_text(seq![other]),
{
    assert(seq![subscription].drop_last() =~= seq![]);
    assert(seq![other].drop_last() =~= seq![]);
    assert(csv::csv_rows(seq![]) =~= seq![]);
}

/// A field is the value itself exactly if that holds no comma, no quote and
/// neither character that ends a line; otherwise it has one character more for
/// each of the two quotes around it and for each quote inside.
pub proof fn law_when_a_field_is_quoted(value: Seq<char>)
    ensures
        csv::field_text(value) == value <==> !value.contains(',') && !value.contains('"')
            && !value.contains('\n') && !value.contains('\r'),
        csv::field_text(value) != value ==> csv::field_text(value).len() == value.len() + 2
            + value.filter(|c: char| c == '"').len(),
{
    law_field_unquotes(value);
    lemma_doubled_length(value);
    if csv::needs_quotes(value) {
        let i = choose|i: int| 0 <= i < value.len() && csv::special(#[trigger] value[i]);
        assert(value.contains(value[i]));
    } else {
        assert forall|c: char| csv::special(c) implies !(#[trigger] value.contains(c)) by {
            if value.contains(c) {
                let i = choose|i: int| 0 <= i < value.len() && value[i] == c;
                assert(csv::special(value[i]));
            }
        }
        assert(csv::special(',') && csv::special('"') && csv::special('\n') && csv::special('\r'));
    }
}

proof fn lemma_doubled_length(value: Seq<char>)
    ensures
        csv::doubled(value).len() == value.len() + value.filter(|c: char| c == '"').len(),
    decreases value.len(),
{
    reveal(Seq::filter);
    if value.len() > 0 {
        lemma_doubled_length(value.drop_last());
    }
}

} // verus!
