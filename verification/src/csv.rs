//! The CSV export: one row per subscription with its customer, start date and
//! amount.

use vstd::prelude::*;
use vstd::string::*;

use crate::billing::{Customer, Subscription, SubscriptionItem};
use crate::calendar::{self, format_date};
use crate::currency::{self, to_mills};
use crate::labels::{self, customer_name, format_address_single_line};
use crate::reading;
use crate::text::{self, push_decimal};

verus! {

/// The first line of the export.
pub const HEADER: &'static str = "name,address,sub_start_date,sub_amount\n";

/// A character that a field holds only between quotes.
pub open spec fn special(c: char) -> bool {
    c == ',' || c == '"' || c == '\n' || c == '\r'
}

/// Whether a field stands between quotes.
pub open spec fn needs_quotes(value: Seq<char>) -> bool {
    exists|i: int| 0 <= i < value.len() && special(#[trigger] value[i])
}

/// The text with each quote doubled.
pub open spec fn doubled(value: Seq<char>) -> Seq<char>
    decreases value.len(),
{
    if value.len() == 0 {
        seq![]
    } else if value.last() == '"' {
        doubled(value.drop_last()).push('"').push('"')
    } else {
        doubled(value.drop_last()).push(value.last())
    }
}

/// A value as a field of the export.
pub open spec fn field_text(value: Seq<char>) -> Seq<char> {
    if needs_quotes(value) {
        seq!['"'] + doubled(value) + seq!['"']
    } else {
        value
    }
}

fn is_special(value: &str) -> (r: bool)
    ensures
        r == needs_quotes(value@),
{
    let mut found: bool = false;
    for c in it: value.chars()
        invariant
            it.seq() == value@,
            found == exists|i: int| 0 <= i < it.index() && special(#[trigger] value@[i]),
    {
        if c == ',' || c == '"' || c == '\n' || c == '\r' {
            assert(special(value@[it.index()]));
            found = true;
        }
    }
    found
}

/// Escapes a value for embedding as a single CSV field: wraps it in quotes
/// (doubling any embedded quotes) if it contains a comma, quote, or newline.
pub fn csv_field(value: &str) -> (r: String)
    ensures
        r@ == field_text(value@),
{
    if !is_special(value) {
        return value.to_owned();
    }
    let mut out = String::new();
    out.push('"');
    for c in it: value.chars()
        invariant
            it.seq() == value@,
            out@ == seq!['"'] + doubled(value@.take(it.index())),
    {
        assert(value@.take(it.index() + 1).drop_last() =~= value@.take(it.index()));
        if c == '"' {
            out.push('"');
        }
        out.push(c);
    }
    assert(value@.take(value@.len() as int) =~= value@);
    out.push('"');
    out
}

/// What one line of a subscription costs per cycle, in the smallest unit of its
/// currency: the unit amount times the quantity, held within 64 bits. A missing
/// amount is nothing, and a missing quantity is one.
pub open spec fn item_amount(item: SubscriptionItem) -> int {
    let unit_amount = match item.unit_amount {
        Some(amount) => amount as int,
        None => 0,
    };
    let quantity = match item.quantity {
        Some(quantity) => if quantity <= i64::MAX {
            quantity as int
        } else {
            i64::MAX as int
        },
        None => 1,
    };
    let product = unit_amount * quantity;
    if product < i64::MIN {
        i64::MIN as int
    } else if product > i64::MAX {
        i64::MAX as int
    } else {
        product
    }
}

/// What one line of a subscription costs per cycle, in mills: thousandths of
/// the major unit of its currency.
pub open spec fn item_mills(item: SubscriptionItem) -> int {
    currency::in_mills(item_amount(item), currency::minor_digits(item.currency@))
}

/// The sum of what the lines of a subscription cost, in smallest units.
pub open spec fn total_amount(items: Seq<SubscriptionItem>) -> int
    decreases items.len(),
{
    if items.len() == 0 {
        0
    } else {
        total_amount(items.drop_last()) + item_amount(items.last())
    }
}

/// The sum of what the lines of a subscription cost, in mills.
pub open spec fn total_mills(items: Seq<SubscriptionItem>) -> int
    decreases items.len(),
{
    if items.len() == 0 {
        0
    } else {
        total_mills(items.drop_last()) + item_mills(items.last())
    }
}

/// Whether the sum fits after each line: into 64 bits in smallest units, and
/// into 128 bits in mills.
pub open spec fn total_fits(items: Seq<SubscriptionItem>) -> bool {
    forall|count: int| 0 <= count <= items.len() ==> sum_fits(#[trigger] items.take(count))
}

/// Whether the sum over all lines fits.
pub open spec fn sum_fits(items: Seq<SubscriptionItem>) -> bool {
    &&& i64::MIN <= total_amount(items) <= i64::MAX
    &&& i128::MIN <= total_mills(items) <= i128::MAX
}

/// For as many lines as memory can hold, the sum in mills fits.
pub proof fn law_mills_fit(items: Seq<SubscriptionItem>)
    requires
        items.len() <= 0x20_0000_0000_0000,
    ensures
        -(items.len() * 0x8000_0000_0000_0000 * 1000) <= total_mills(items) <= items.len()
            * 0x8000_0000_0000_0000 * 1000,
        i128::MIN <= total_mills(items) <= i128::MAX,
    decreases items.len(),
{
    if items.len() > 0 {
        law_mills_fit(items.drop_last());
    }
}

/// Where all lines are in currencies with equally many decimal digits, their
/// total in mills is that in smallest units, converted at once.
pub proof fn law_total_of_one_currency(items: Seq<SubscriptionItem>, digits: nat)
    requires
        forall|i: int|
            0 <= i < items.len() ==> currency::minor_digits((#[trigger] items[i]).currency@)
                == digits,
    ensures
        total_mills(items) == currency::in_mills(total_amount(items), digits),
    decreases items.len(),
{
    if items.len() > 0 {
        let front = items.drop_last();
        assert forall|i: int| 0 <= i < front.len() implies currency::minor_digits(
            (#[trigger] front[i]).currency@,
        ) == digits by {
            assert(currency::minor_digits(items[i].currency@) == digits);
        }
        law_total_of_one_currency(front, digits);
        assert(currency::minor_digits(items[items.len() - 1].currency@) == digits);
    }
}

/// Mills as hundredths, to the nearest one, and half way to the even one.
pub open spec fn hundredths(mills: int) -> int {
    if mills % 10 < 5 || (mills % 10 == 5 && (mills / 10) % 2 == 0) {
        mills / 10
    } else {
        mills / 10 + 1
    }
}

/// The size of an amount, without its sign.
pub open spec fn size_of(mills: int) -> int {
    if mills < 0 {
        -mills
    } else {
        mills
    }
}

/// An amount of mills in major units, with two decimal places.
pub open spec fn amount_text(mills: int) -> Seq<char> {
    let sign: Seq<char> = if mills < 0 {
        seq!['-']
    } else {
        seq![]
    };
    let cents = hundredths(size_of(mills));
    sign + text::decimal((cents / 100) as nat) + seq!['.'] + text::zero_padded(
        (cents % 100) as nat,
        2,
    )
}

/// The text of an amount has two decimal places, and a minus sign exactly if
/// the amount is negative; all else are digits, without a leading zero before
/// the last one of the whole part. It denotes the amount exactly where two
/// places are enough, as they are in every currency whose smallest unit has at
/// most two decimal digits, and otherwise the nearest one with two places, half
/// way the even one.
pub proof fn law_amount_text_denotes(mills: int)
    ensures
        ({
            let written = amount_text(mills);
            let digits = if mills < 0 {
                written.skip(1)
            } else {
                written
            };
            let size = if mills < 0 {
                -mills
            } else {
                mills
            };
            let point = digits.len() - 3;
            let value = text::digits_value(digits.take(point)) * 100 + text::digits_value(
                digits.skip(point + 1),
            );
            &&& mills < 0 <==> written[0] == '-'
            &&& point >= 1
            &&& digits[point] == '.'
            &&& forall|i: int|
                0 <= i < digits.len() && i != point ==> '0' <= #[trigger] digits[i] <= '9'
            &&& point > 1 ==> digits[0] != '0'
            &&& value == hundredths(size_of(mills))
            &&& size - 5 <= value * 10 <= size + 5
            &&& size % 10 == 5 ==> value % 2 == 0
            &&& mills % 10 == 0 ==> value * 10 == size
        }),
{
    let written = amount_text(mills);
    let cents = hundredths(size_of(mills));
    let whole = text::decimal((cents / 100) as nat);
    let places = text::zero_padded((cents % 100) as nat, 2);
    text::law_decimal_denotes((cents / 100) as nat);
    text::law_zero_padded_denotes((cents % 100) as nat, 2);
    reveal_with_fuel(text::zero_padded, 2);
    let digits = if mills < 0 {
        written.skip(1)
    } else {
        written
    };
    assert(digits =~= whole + seq!['.'] + places);
    assert(places.len() == 2);
    let point = digits.len() - 3;
    assert(digits.take(point) =~= whole);
    assert(digits.skip(point + 1) =~= places);
    if mills >= 0 {
        assert(written[0] == whole[0]);
    }
    assert forall|i: int| 0 <= i < digits.len() && i != point implies '0' <= #[trigger] digits[i]
        <= '9' by {
        if i < point {
            assert(digits[i] == whole[i]);
        } else {
            assert(digits[i] == places[i - point - 1]);
        }
    }
    assert(digits[0] == whole[0]);
}

/// The total of lines in currencies whose smallest unit has at most two decimal
/// digits is a whole number of hundredths.
pub proof fn law_two_places_are_enough(items: Seq<SubscriptionItem>)
    requires
        forall|i: int|
            0 <= i < items.len() ==> currency::minor_digits((#[trigger] items[i]).currency@) <= 2,
    ensures
        total_mills(items) % 10 == 0,
    decreases items.len(),
{
    if items.len() > 0 {
        let front = items.drop_last();
        assert forall|i: int| 0 <= i < front.len() implies currency::minor_digits(
            (#[trigger] front[i]).currency@,
        ) <= 2 by {
            assert(currency::minor_digits(items[i].currency@) <= 2);
        }
        law_two_places_are_enough(front);
        let last = items[items.len() - 1];
        assert(currency::minor_digits(last.currency@) <= 2);
    }
}

fn amount_of(item: &SubscriptionItem) -> (r: i64)
    ensures
        r == item_amount(*item),
{
    let unit_amount: i64 = match item.unit_amount {
        Some(amount) => amount,
        None => 0,
    };
    let quantity: i64 = match item.quantity {
        Some(quantity) => if quantity <= i64::MAX as u64 {
            quantity as i64
        } else {
            i64::MAX
        },
        None => 1,
    };
    assert(-0x8000_0000_0000_0000 * 0x8000_0000_0000_0000 <= unit_amount * quantity
        <= 0x8000_0000_0000_0000 * 0x8000_0000_0000_0000) by (nonlinear_arith)
        requires
            -0x8000_0000_0000_0000 <= unit_amount <= 0x8000_0000_0000_0000,
            0 <= quantity <= 0x8000_0000_0000_0000,
    ;
    let product: i128 = unit_amount as i128 * quantity as i128;
    if product < i64::MIN as i128 {
        i64::MIN
    } else if product > i64::MAX as i128 {
        i64::MAX
    } else {
        product as i64
    }
}

/// A subscription's per-cycle total in mills, thousandths of the major currency
/// unit, or `None` where it does not fit.
pub fn subscription_total(subscription: &Subscription) -> (r: Option<i128>)
    ensures
        match r {
            Some(mills) => total_fits(subscription.items@) && mills == total_mills(
                subscription.items@,
            ),
            None => !total_fits(subscription.items@),
        },
{
    let ghost items = subscription.items@;
    let mut total: i64 = 0;
    let mut mills: i128 = 0;
    for i in 0..subscription.items.len()
        invariant
            items == subscription.items@,
            total == total_amount(items.take(i as int)),
            mills == total_mills(items.take(i as int)),
            forall|count: int| 0 <= count <= i ==> sum_fits(#[trigger] items.take(count)),
    {
        assert(items.take(i + 1).drop_last() =~= items.take(i as int));
        let item = &subscription.items[i];
        let amount: i64 = amount_of(item);
        let more: i128 = to_mills(amount, item.currency.as_str());
        match (total.checked_add(amount), mills.checked_add(more)) {
            (Some(sum), Some(mill_sum)) => {
                total = sum;
                mills = mill_sum;
            },
            _ => {
                assert(!sum_fits(items.take(i + 1)));
                return None;
            },
        }
    }
    assert(items.take(items.len() as int) =~= items);
    Some(mills)
}

fn two_digits(out: &mut String, n: u128)
    requires
        n < 100,
    ensures
        final(out)@ == old(out)@ + text::zero_padded(n as nat, 2),
{
    reveal_with_fuel(text::zero_padded, 2);
    reveal_with_fuel(text::decimal, 2);
    push_decimal(out, n / 10);
    push_decimal(out, n % 10);
    assert(out@ =~= old(out)@ + text::zero_padded(n as nat, 2));
}

/// Formats mills as major currency units with two decimal places.
pub fn format_amount(mills: i128) -> (r: String)
    ensures
        r@ == amount_text(mills as int),
{
    let mut out = String::new();
    let size: u128 = if mills < 0 {
        out.push('-');
        (-(mills + 1)) as u128 + 1
    } else {
        mills as u128
    };
    let cents: u128 = if size % 10 < 5 || (size % 10 == 5 && (size / 10) % 2 == 0) {
        size / 10
    } else {
        size / 10 + 1
    };
    push_decimal(&mut out, cents / 100);
    out.push('.');
    two_digits(&mut out, cents % 100);
    assert(out@ =~= amount_text(mills as int));
    out
}

/// A subscription's per-cycle total: the sum of `unit_amount * quantity` across
/// its lines, converted from the smallest unit of each line's currency (e.g.
/// cents) to major units (e.g. dollars) and formatted with two decimal places.
pub fn subscription_amount(subscription: &Subscription) -> (r: String)
    requires
        total_fits(subscription.items@),
    ensures
        r@ == amount_text(total_mills(subscription.items@)),
{
    match subscription_total(subscription) {
        Some(mills) => format_amount(mills),
        None => String::new(),
    }
}

/// A customer's address in a single line, or the empty text without one.
pub open spec fn address_text(customer: Customer) -> Seq<char> {
    match customer.address {
        Some(address) => labels::single_line(address),
        None => seq![],
    }
}

/// The fields of a row: the customer's name and address, the start date and
/// the amount.
pub open spec fn row_fields(subscription: Subscription, customer: Customer) -> Seq<Seq<char>> {
    seq![
        labels::display_name(customer),
        address_text(customer),
        calendar::timestamp_text(subscription.start_date as int),
        amount_text(total_mills(subscription.items@)),
    ]
}

/// Four fields as a line of the export.
pub open spec fn line_text(fields: Seq<Seq<char>>) -> Seq<char> {
    field_text(fields[0]) + seq![','] + field_text(fields[1]) + seq![','] + field_text(fields[2])
        + seq![','] + field_text(fields[3]) + seq!['\n']
}

/// The rows of the export: one per subscription whose customer was expanded,
/// in the order of the subscriptions.
pub open spec fn csv_rows(subscriptions: Seq<Subscription>) -> Seq<Seq<Seq<char>>>
    decreases subscriptions.len(),
{
    if subscriptions.len() == 0 {
        seq![]
    } else {
        let before = csv_rows(subscriptions.drop_last());
        match subscriptions.last().customer.object() {
            Some(customer) => before.push(row_fields(subscriptions.last(), customer)),
            None => before,
        }
    }
}

/// Rows as lines.
pub open spec fn lines_text(rows: Seq<Seq<Seq<char>>>) -> Seq<char>
    decreases rows.len(),
{
    if rows.len() == 0 {
        seq![]
    } else {
        lines_text(rows.drop_last()) + line_text(rows.last())
    }
}

/// The whole export.
pub open spec fn csv_text(subscriptions: Seq<Subscription>) -> Seq<char> {
    HEADER@ + lines_text(csv_rows(subscriptions))
}

/// Whether the amounts of all subscriptions that get a row fit.
pub open spec fn amounts_fit(subscriptions: Seq<Subscription>) -> bool {
    forall|i: int|
        0 <= i < subscriptions.len() && (#[trigger] subscriptions[i]).customer.object() is Some
            ==> total_fits(subscriptions[i].items@)
}

/// Whether [`render_subscriptions_csv`] can write the amounts of all
/// subscriptions.
pub fn all_amounts_fit(subscriptions: &[Subscription]) -> (r: bool)
    ensures
        r == amounts_fit(subscriptions@),
{
    for i in 0..subscriptions.len()
        invariant
            forall|j: int|
                0 <= j < i && (#[trigger] subscriptions@[j]).customer.object() is Some
                    ==> total_fits(subscriptions@[j].items@),
    {
        if subscriptions[i].customer.as_object().is_some() && subscription_total(
            &subscriptions[i],
        ).is_none() {
            return false;
        }
    }
    true
}

/// Appends a row to the export.
fn push_row(csv: &mut String, subscription: &Subscription, customer: &Customer)
    requires
        total_fits(subscription.items@),
    ensures
        final(csv)@ == old(csv)@ + line_text(row_fields(*subscription, *customer)),
{
    let address: String = match &customer.address {
        Some(address) => format_address_single_line(address),
        None => String::new(),
    };
    csv.append(csv_field(customer_name(customer)).as_str());
    csv.push(',');
    csv.append(csv_field(address.as_str()).as_str());
    csv.push(',');
    csv.append(csv_field(format_date(subscription.start_date).as_str()).as_str());
    csv.push(',');
    csv.append(csv_field(subscription_amount(subscription).as_str()).as_str());
    csv.push('\n');
    assert(csv@ =~= old(csv)@ + line_text(row_fields(*subscription, *customer)));
}

/// Renders `subscriptions` as CSV with columns
/// `name,address,sub_start_date,sub_amount`, one row per subscription (so a
/// customer with multiple subscriptions gets multiple rows). Subscriptions
/// whose customer was not expanded are skipped.
pub fn render_subscriptions_csv(subscriptions: &[Subscription]) -> (r: String)
    requires
        amounts_fit(subscriptions@),
    ensures
        r@ == csv_text(subscriptions@),
        reading::read_file(r@) matches Some(lines) && {
            &&& lines.len() == 1 + expanded_only(subscriptions@).len()
            &&& lines[0] == seq!["name"@, "address"@, "sub_start_date"@, "sub_amount"@]
            &&& lines == lines.take(1) + csv_rows(subscriptions@)
        },
{
    let mut csv = HEADER.to_owned();
    for i in 0..subscriptions.len()
        invariant
            amounts_fit(subscriptions@),
            csv@ == HEADER@ + lines_text(csv_rows(subscriptions@.take(i as int))),
    {
        assert(subscriptions@.take(i + 1).drop_last() =~= subscriptions@.take(i as int));
        let ghost rows = csv_rows(subscriptions@.take(i as int));
        match subscriptions[i].customer.as_object() {
            None => {},
            Some(customer) => {
                push_row(&mut csv, &subscriptions[i], customer);
                proof {
                    let row = row_fields(subscriptions@[i as int], *customer);
                    assert(rows.push(row).drop_last() =~= rows);
                    assert(csv@ =~= HEADER@ + (lines_text(rows) + line_text(row)));
                }
            },
        }
    }
    assert(subscriptions@.take(subscriptions@.len() as int) =~= subscriptions@);
    proof {
        reading::law_export_reads_back(subscriptions@);
        law_unexpanded_leave_no_trace(subscriptions@);
        let lines = reading::read_file(csv@).unwrap();
        assert(lines.take(1) =~= seq![reading::header_fields()]);
    }
    csv
}

proof fn lemma_rows_of_both(first: Seq<Subscription>, second: Seq<Subscription>)
    ensures
        csv_rows(first + second) == csv_rows(first) + csv_rows(second),
    decreases second.len(),
{
    if second.len() == 0 {
        assert(first + second =~= first);
    } else {
        assert((first + second).drop_last() =~= first + second.drop_last());
        lemma_rows_of_both(first, second.drop_last());
    }
}

proof fn lemma_lines_of_both(first: Seq<Seq<Seq<char>>>, second: Seq<Seq<Seq<char>>>)
    ensures
        lines_text(first + second) == lines_text(first) + lines_text(second),
    decreases second.len(),
{
    if second.len() == 0 {
        assert(first + second =~= first);
    } else {
        assert((first + second).drop_last() =~= first + second.drop_last());
        lemma_lines_of_both(first, second.drop_last());
    }
}

/// The export starts with the header and ends with the end of a line.
pub proof fn law_export_has_whole_lines(subscriptions: Seq<Subscription>)
    ensures
        HEADER@.is_prefix_of(csv_text(subscriptions)),
        csv_text(subscriptions).last() == '\n',
{
    reveal_strlit("name,address,sub_start_date,sub_amount\n");
    assert(csv_text(subscriptions).subrange(0, HEADER@.len() as int) =~= HEADER@);
    let rows = csv_rows(subscriptions);
    if rows.len() > 0 {
        assert(line_text(rows.last()).last() == '\n');
    }
}

/// The export of two lists of subscriptions is that of the first, followed by
/// the rows of the second: each row depends on its own subscription alone, and
/// none is merged or dropped where a customer comes again.
pub proof fn law_exports_append(first: Seq<Subscription>, second: Seq<Subscription>)
    ensures
        csv_text(first + second) == csv_text(first) + csv_text(second).skip(HEADER@.len() as int),
        amounts_fit(first + second) <==> amounts_fit(first) && amounts_fit(second),
{
    lemma_rows_of_both(first, second);
    lemma_lines_of_both(csv_rows(first), csv_rows(second));
    assert(csv_text(second).skip(HEADER@.len() as int) =~= lines_text(csv_rows(second)));
    let both = first + second;
    if amounts_fit(both) {
        assert forall|i: int|
            0 <= i < first.len() && (#[trigger] first[i]).customer.object() is Some implies total_fits(
            first[i].items@,
        ) by {
            assert(both[i] == first[i]);
        }
        assert forall|i: int|
            0 <= i < second.len()
                && (#[trigger] second[i]).customer.object() is Some implies total_fits(
            second[i].items@,
        ) by {
            assert(both[first.len() + i] == second[i]);
        }
    }
}

/// The subscriptions whose customer was expanded, in order.
pub open spec fn expanded_only(subscriptions: Seq<Subscription>) -> Seq<Subscription> {
    subscriptions.filter(|subscription: Subscription| subscription.customer.object() is Some)
}

/// A subscription whose customer was not expanded leaves no trace in the
/// export, and there is one row for each other subscription.
pub proof fn law_unexpanded_leave_no_trace(subscriptions: Seq<Subscription>)
    ensures
        csv_text(expanded_only(subscriptions)) == csv_text(subscriptions),
        csv_rows(expanded_only(subscriptions)) == csv_rows(subscriptions),
        csv_rows(subscriptions).len() == expanded_only(subscriptions).len(),
    decreases subscriptions.len(),
{
    reveal(Seq::filter);
    if subscriptions.len() > 0 {
        let before = expanded_only(subscriptions.drop_last());
        law_unexpanded_leave_no_trace(subscriptions.drop_last());
        if subscriptions.last().customer.object() is Some {
            assert(expanded_only(subscriptions).drop_last() =~= before);
        }
    }
}

/// A line costs the unit amount times the quantity wherever that fits into 64
/// bits, and otherwise the nearest amount that fits. A quantity that does not
/// fit counts as the largest that does.
pub proof fn law_line_costs_the_product(item: SubscriptionItem, unit_amount: i64, quantity: u64)
    requires
        item.unit_amount == Some(unit_amount),
        item.quantity == Some(quantity),
    ensures
        quantity <= i64::MAX && i64::MIN <= unit_amount * quantity <= i64::MAX ==> item_amount(item)
            == unit_amount * quantity,
        quantity <= i64::MAX && unit_amount * quantity > i64::MAX ==> item_amount(item) == i64::MAX,
        quantity <= i64::MAX && unit_amount * quantity < i64::MIN ==> item_amount(item) == i64::MIN,
        quantity > i64::MAX ==> item_amount(item) == (if unit_amount > 0 {
            i64::MAX as int
        } else if unit_amount == 0 {
            0
        } else if unit_amount == -1 {
            -i64::MAX
        } else {
            i64::MIN as int
        }),
{
    if quantity > i64::MAX {
        let product = unit_amount as int * i64::MAX as int;
        assert(unit_amount > 0 ==> product >= 0x7fff_ffff_ffff_ffff) by (nonlinear_arith)
            requires
                product == unit_amount as int * 0x7fff_ffff_ffff_ffff,
        ;
        assert(unit_amount < -1 ==> product <= -2 * 0x7fff_ffff_ffff_ffff) by (nonlinear_arith)
            requires
                product == unit_amount as int * 0x7fff_ffff_ffff_ffff,
        ;
    }
}

/// A line without a quantity costs the unit amount once, and one without a unit
/// amount costs nothing.
pub proof fn law_missing_parts_of_a_line(item: SubscriptionItem)
    ensures
        item.quantity is None ==> (item.unit_amount matches Some(amount) ==> item_amount(item)
            == amount),
        item.unit_amount is None ==> item_amount(item) == 0,
{
    if item.unit_amount is None {
        let quantity = match item.quantity {
            Some(quantity) => if quantity <= i64::MAX {
                quantity as int
            } else {
                i64::MAX as int
            },
            None => 1,
        };
        assert(0 * quantity == 0) by (nonlinear_arith);
    } else {
        let amount = item.unit_amount.unwrap() as int;
        assert(amount * 1 == amount) by (nonlinear_arith);
    }
}

/// One more unit of a line costs the unit amount more, as long as it fits.
pub proof fn law_one_more_unit(
    item: SubscriptionItem,
    more: SubscriptionItem,
    unit_amount: i64,
    quantity: u64,
)
    requires
        item.unit_amount == Some(unit_amount),
        more.unit_amount == Some(unit_amount),
        item.quantity == Some(quantity),
        quantity < i64::MAX,
        more.quantity == Some((quantity + 1) as u64),
        i64::MIN <= unit_amount * quantity <= i64::MAX,
        i64::MIN <= unit_amount * (quantity + 1) <= i64::MAX,
    ensures
        item_amount(more) == item_amount(item) + unit_amount,
{
    law_line_costs_the_product(item, unit_amount, quantity);
    law_line_costs_the_product(more, unit_amount, (quantity + 1) as u64);
    assert(unit_amount * (quantity + 1) == unit_amount * quantity + unit_amount)
        by (nonlinear_arith);
}

/// The total over two lists of lines is the sum of their totals, and that of a
/// single line is what it costs: in a currency of `digits` decimal digits, a
/// smallest unit is 1000, 10 or 1 mills.
pub proof fn law_totals_add(
    first: Seq<SubscriptionItem>,
    second: Seq<SubscriptionItem>,
    item: SubscriptionItem,
)
    ensures
        total_mills(first + second) == total_mills(first) + total_mills(second),
        total_amount(first + second) == total_amount(first) + total_amount(second),
        total_amount(seq![item]) == item_amount(item),
        ({
            let digits = currency::minor_digits(item.currency@);
            &&& digits == 0 ==> total_mills(seq![item]) == 1000 * item_amount(item)
            &&& digits == 2 ==> total_mills(seq![item]) == 10 * item_amount(item)
            &&& digits == 3 ==> total_mills(seq![item]) == item_amount(item)
            &&& digits == 0 || digits == 2 || digits == 3
        }),
    decreases second.len(),
{
    assert(seq![item].drop_last() =~= seq![]);
    assert(total_mills(seq![]) == 0);
    assert(total_amount(seq![]) == 0);
    if second.len() == 0 {
        assert(first + second =~= first);
    } else {
        assert((first + second).drop_last() =~= first + second.drop_last());
        law_totals_add(first, second.drop_last(), item);
    }
}

/// The amount of a subscription with a single line, in a currency that is
/// counted in hundredths, denotes the unit amount times the quantity in
/// hundredths, with a minus sign exactly if that is negative.
pub proof fn law_amount_of_a_single_line(item: SubscriptionItem, unit_amount: i64, quantity: u64)
    requires
        item.unit_amount == Some(unit_amount),
        item.quantity == Some(quantity),
        quantity <= i64::MAX,
        i64::MIN <= unit_amount * quantity <= i64::MAX,
        currency::minor_digits(item.currency@) == 2,
    ensures
        ({
            let product = unit_amount * quantity;
            let written = amount_text(total_mills(seq![item]));
            let digits = if product < 0 {
                written.skip(1)
            } else {
                written
            };
            let point = digits.len() - 3;
            &&& product < 0 <==> written[0] == '-'
            &&& digits[point] == '.'
            &&& text::digits_value(digits.take(point)) * 100 + text::digits_value(
                digits.skip(point + 1),
            ) == (if product < 0 {
                -product
            } else {
                product
            })
        }),
{
    law_line_costs_the_product(item, unit_amount, quantity);
    law_totals_add(seq![], seq![], item);
    law_amount_text_denotes(total_mills(seq![item]));
}

/// The amounts of a subscription can be written exactly if the sums after each
/// of its lines fit, in smallest units into 64 and in mills into 128 bits; those
/// of an export exactly if they can for each subscription that gets a row.
pub proof fn law_what_fits(items: Seq<SubscriptionItem>, subscriptions: Seq<Subscription>)
    ensures
        total_fits(items) <==> forall|count: int|
            #![trigger items.take(count)]
            0 <= count <= items.len() ==> -0x8000_0000_0000_0000 <= total_amount(items.take(count))
                <= 0x7fff_ffff_ffff_ffff && i128::MIN <= total_mills(items.take(count))
                <= i128::MAX,
        amounts_fit(subscriptions) <==> forall|i: int|
            #![trigger subscriptions[i]]
            0 <= i < subscriptions.len() && subscriptions[i].customer is Object ==> total_fits(
                subscriptions[i].items@,
            ),
{
    if forall|count: int|
        #![trigger items.take(count)]
        0 <= count <= items.len() ==> -0x8000_0000_0000_0000 <= total_amount(items.take(count))
            <= 0x7fff_ffff_ffff_ffff && i128::MIN <= total_mills(items.take(count)) <= i128::MAX {
        assert forall|count: int| 0 <= count <= items.len() implies sum_fits(
            #[trigger] items.take(count),
        ) by {}
    }
    if total_fits(items) {
        assert forall|count: int| #![trigger items.take(count)] 0 <= count <= items.len() implies
            -0x8000_0000_0000_0000 <= total_amount(items.take(count)) <= 0x7fff_ffff_ffff_ffff
            && i128::MIN <= total_mills(items.take(count)) <= i128::MAX by {
            assert(sum_fits(items.take(count)));
        }
    }
}

} // verus!
