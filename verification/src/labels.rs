//! Shipping labels: what stands on each, and how they fill the sheets.

use vstd::prelude::*;
use vstd::string::*;

use crate::billing::{Address, Customer};
use crate::text;

verus! {

/// Number of labels per A4 sheet for the Avery L7163-compatible layout
/// (2 columns x 7 rows of 99.09 x 38.1 mm labels).
pub const LABELS_PER_PAGE: usize = 14;

/// What the single label says where there are no customers.
pub const NO_CUSTOMERS: &'static str = "No customers found.";

/// One label: a standalone message, or a customer's name and address.
#[derive(Clone, Debug)]
pub enum LabelCell {
    Placeholder(String),
    Customer { name: String, lines: Vec<String>, no_address: bool },
}

/// What stands on a label.
pub enum LabelText {
    Placeholder(Seq<char>),
    Customer { name: Seq<char>, lines: Seq<Seq<char>>, no_address: bool },
}

impl View for LabelCell {
    type V = LabelText;

    open spec fn view(&self) -> LabelText {
        match *self {
            LabelCell::Placeholder(text) => LabelText::Placeholder(text@),
            LabelCell::Customer { name, lines, no_address } => LabelText::Customer {
                name: name@,
                lines: text::contents(lines@),
                no_address,
            },
        }
    }
}

/// A part of an address that is there and not blank.
pub open spec fn present(part: Option<String>) -> Option<Seq<char>> {
    match part {
        Some(text) => if text::blank(text@) {
            None
        } else {
            Some(text@)
        },
        None => None,
    }
}

/// A list of the part alone, or of nothing where it is absent or blank.
pub open spec fn listed(part: Option<String>) -> Seq<Seq<char>> {
    match present(part) {
        Some(text) => seq![text],
        None => seq![],
    }
}

/// The line with the city, the state and the postal code.
pub open spec fn city_line(address: Address) -> Seq<char> {
    text::joined(
        listed(address.city) + listed(address.state) + listed(address.postal_code),
        " "@,
    )
}

/// The lines of an address on a label.
pub open spec fn label_lines(address: Address) -> Seq<Seq<char>> {
    let city: Seq<Seq<char>> = if city_line(address).len() == 0 {
        seq![]
    } else {
        seq![city_line(address)]
    };
    listed(address.line1) + listed(address.line2) + city + listed(address.country)
}

/// The parts of an address that are there and not blank, in order.
pub open spec fn address_parts(address: Address) -> Seq<Seq<char>> {
    listed(address.line1) + listed(address.line2) + listed(address.city) + listed(address.state)
        + listed(address.postal_code) + listed(address.country)
}

/// An address in a single line.
pub open spec fn single_line(address: Address) -> Seq<char> {
    text::joined(address_parts(address), ", "@)
}

/// What a customer is called: the name, else the email address, else the id.
pub open spec fn display_name(customer: Customer) -> Seq<char> {
    match customer.name {
        Some(name) => name@,
        None => match customer.email {
            Some(email) => email@,
            None => customer.id@,
        },
    }
}

/// A customer's label.
pub open spec fn label_of(customer: Customer) -> LabelText {
    match customer.address {
        Some(address) => LabelText::Customer {
            name: display_name(customer),
            lines: label_lines(address),
            no_address: false,
        },
        None => LabelText::Customer {
            name: display_name(customer),
            lines: seq![],
            no_address: true,
        },
    }
}

/// Treats blank strings the same as absent values.
pub fn non_empty(value: Option<&str>) -> (r: Option<&str>)
    ensures
        r == (match value {
            Some(text) => if text::blank(text@) {
                None
            } else {
                value
            },
            None => None,
        }),
{
    match value {
        Some(text) => if text::is_blank(text) {
            None
        } else {
            Some(text)
        },
        None => None,
    }
}

fn as_text(part: &Option<String>) -> (r: Option<&str>)
    ensures
        match part {
            Some(text) => r matches Some(slice) && slice@ == text@,
            None => r is None,
        },
{
    match part {
        Some(text) => Some(text.as_str()),
        None => None,
    }
}

/// Appends the part to the list, unless it is absent or blank.
fn push_present(list: &mut Vec<String>, part: &Option<String>)
    ensures
        text::contents(final(list)@) == text::contents(old(list)@) + listed(*part),
{
    if let Some(text) = non_empty(as_text(part)) {
        list.push(text.to_owned());
    }
    assert(text::contents(list@) =~= text::contents(old(list)@) + listed(*part));
}

/// Formats a customer address as separate lines: street lines, then
/// city/state/postal code, then country, omitting any that are absent or
/// blank.
pub fn address_lines(address: &Address) -> (r: Vec<String>)
    ensures
        text::contents(r@) == label_lines(*address),
        ({
            let there = |part: Option<String>| part matches Some(text) && !text::blank(text@);
            let city: Seq<char> = if there(address.city) {
                address.city.unwrap()@
            } else {
                seq![]
            };
            let city_state: Seq<char> = if !there(address.state) {
                city
            } else if city.len() == 0 {
                address.state.unwrap()@
            } else {
                city + " "@ + address.state.unwrap()@
            };
            let city_state_zip: Seq<char> = if !there(address.postal_code) {
                city_state
            } else if city_state.len() == 0 {
                address.postal_code.unwrap()@
            } else {
                city_state + " "@ + address.postal_code.unwrap()@
            };
            let after_1: int = if there(address.line1) {
                1
            } else {
                0
            };
            let after_2: int = if there(address.line2) {
                after_1 + 1
            } else {
                after_1
            };
            let after_city: int = if there(address.city) || there(address.state) || there(address.postal_code) {
                after_2 + 1
            } else {
                after_2
            };
            let after_all: int = if there(address.country) {
                after_city + 1
            } else {
                after_city
            };
            &&& r@.len() == after_all
            &&& there(address.line1) ==> r@[0]@ == address.line1.unwrap()@
            &&& there(address.line2) ==> r@[after_1]@ == address.line2.unwrap()@
            &&& after_2 < after_city ==> r@[after_2]@ == city_state_zip
            &&& there(address.country) ==> r@[after_city]@ == address.country.unwrap()@
        }),
{
    let mut lines: Vec<String> = Vec::new();
    push_present(&mut lines, &address.line1);
    push_present(&mut lines, &address.line2);
    let ghost street = text::contents(lines@);
    assert(street =~= listed(address.line1) + listed(address.line2));

    let mut parts: Vec<String> = Vec::new();
    push_present(&mut parts, &address.city);
    push_present(&mut parts, &address.state);
    push_present(&mut parts, &address.postal_code);
    assert(text::contents(parts@) =~= listed(address.city) + listed(address.state) + listed(
        address.postal_code,
    ));
    let city_state_zip = text::join(&parts, " ");
    if !city_state_zip.as_str().is_empty() {
        lines.push(city_state_zip);
        assert(text::contents(lines@) =~= street + seq![city_line(*address)]);
    }
    push_present(&mut lines, &address.country);
    assert(text::contents(lines@) =~= label_lines(*address));
    proof {
        law_lines_of_an_address(*address);
        assert forall|i: int| 0 <= i < lines@.len() implies #[trigger] lines@[i]@ == label_lines(
            *address,
        )[i] by {
            assert(text::contents(lines@)[i] == lines@[i]@);
        }
    }
    lines
}

/// Renders a customer's address as a single comma-separated line: street
/// lines, city, state, postal code, country.
pub fn format_address_single_line(address: &Address) -> (r: String)
    ensures
        r@ == single_line(*address),
{
    let mut parts: Vec<String> = Vec::new();
    push_present(&mut parts, &address.line1);
    push_present(&mut parts, &address.line2);
    push_present(&mut parts, &address.city);
    push_present(&mut parts, &address.state);
    push_present(&mut parts, &address.postal_code);
    push_present(&mut parts, &address.country);
    assert(text::contents(parts@) =~= address_parts(*address));
    text::join(&parts, ", ")
}

/// What a customer is called: the name, else the email address, else the id.
pub fn customer_name(customer: &Customer) -> (r: &str)
    ensures
        r@ == display_name(*customer),
        customer.name matches Some(name) ==> r@ == name@,
        customer.name is None ==> (customer.email matches Some(email) ==> r@ == email@),
        customer.name is None && customer.email is None ==> r@ == customer.id@,
{
    match as_text(&customer.name) {
        Some(name) => name,
        None => match as_text(&customer.email) {
            Some(email) => email,
            None => customer.id.as_str(),
        },
    }
}

/// Builds a single customer's label: the name, followed by the address if
/// there is one, or a note that there is none.
pub fn label_cell(customer: &Customer) -> (r: LabelCell)
    ensures
        r@ == label_of(*customer),
        r matches LabelCell::Customer { name, lines, no_address } && {
            &&& no_address == customer.address is None
            &&& customer.address is None ==> lines@.len() == 0
            &&& customer.name matches Some(own) ==> name@ == own@
            &&& customer.name is None ==> (customer.email matches Some(email) ==> name@ == email@)
            &&& customer.name is None && customer.email is None ==> name@ == customer.id@
            &&& customer.address matches Some(address) ==> {
                let there = |part: Option<String>| part matches Some(text) && !text::blank(text@);
                let city: Seq<char> = if there(address.city) {
                    address.city.unwrap()@
                } else {
                    seq![]
                };
                let city_state: Seq<char> = if !there(address.state) {
                    city
                } else if city.len() == 0 {
                    address.state.unwrap()@
                } else {
                    city + " "@ + address.state.unwrap()@
                };
                let city_state_zip: Seq<char> = if !there(address.postal_code) {
                    city_state
                } else if city_state.len() == 0 {
                    address.postal_code.unwrap()@
                } else {
                    city_state + " "@ + address.postal_code.unwrap()@
                };
                let after_1: int = if there(address.line1) {
                    1
                } else {
                    0
                };
                let after_2: int = if there(address.line2) {
                    after_1 + 1
                } else {
                    after_1
                };
                let after_city: int = if there(address.city) || there(address.state) || there(address.postal_code) {
                    after_2 + 1
                } else {
                    after_2
                };
                let after_all: int = if there(address.country) {
                    after_city + 1
                } else {
                    after_city
                };
                &&& lines@.len() == after_all
                &&& there(address.line1) ==> lines@[0]@ == address.line1.unwrap()@
                &&& there(address.line2) ==> lines@[after_1]@ == address.line2.unwrap()@
                &&& after_2 < after_city ==> lines@[after_2]@ == city_state_zip
                &&& there(address.country) ==> lines@[after_city]@ == address.country.unwrap()@
            }
        },
{
    let name = customer_name(customer).to_owned();
    match &customer.address {
        Some(address) => LabelCell::Customer {
            name,
            lines: address_lines(address),
            no_address: false,
        },
        None => {
            let lines: Vec<String> = Vec::new();
            assert(text::contents(lines@) =~= seq![]);
            LabelCell::Customer { name, lines, no_address: true }
        },
    }
}

/// What stands on the labels of a sheet.
pub open spec fn page_text(page: Seq<LabelCell>) -> Seq<LabelText> {
    page.map_values(|cell: LabelCell| cell@)
}

/// What stands on the labels of the sheets.
pub open spec fn sheet_text(pages: Seq<Vec<LabelCell>>) -> Seq<Seq<LabelText>> {
    pages.map_values(|page: Vec<LabelCell>| page_text(page@))
}

/// The number of sheets that hold `count` labels.
pub open spec fn sheet_count(count: int) -> int {
    (count + LABELS_PER_PAGE - 1) / (LABELS_PER_PAGE as int)
}

/// The labels of the sheet at `page`: those of the next customers in order,
/// as many as fit or are left.
pub open spec fn sheet_page(customers: Seq<Customer>, page: int) -> Seq<LabelText> {
    let first = page * LABELS_PER_PAGE;
    let left = customers.len() - first;
    let count = if left < LABELS_PER_PAGE {
        left
    } else {
        LABELS_PER_PAGE as int
    };
    Seq::new(count as nat, |i: int| label_of(customers[first + i]))
}

/// The sheets with the labels of all customers, or a single label with a
/// message where there are none.
pub open spec fn sheet_pages(customers: Seq<Customer>) -> Seq<Seq<LabelText>> {
    if customers.len() == 0 {
        seq![seq![LabelText::Placeholder(NO_CUSTOMERS@)]]
    } else {
        Seq::new(
            sheet_count(customers.len() as int) as nat,
            |page: int| sheet_page(customers, page),
        )
    }
}

/// Chunks `customers` into label sheets, one label per customer. Produces a
/// single sheet with a placeholder message if there are no customers.
pub fn render_customer_report_pages(customers: &[Customer]) -> (r: Vec<Vec<LabelCell>>)
    ensures
        sheet_text(r@) == sheet_pages(customers@),
        customers@.len() == 0 ==> r@.len() == 1 && r@[0]@.len() == 1 && (
        r@[0]@[0] matches LabelCell::Placeholder(message) && message@ == "No customers found."@),
        customers@.len() > 0 ==> (r@.len() - 1) * 14 < customers@.len() <= r@.len() * 14,
        customers@.len() > 0 ==> forall|p: int|
            0 <= p < r@.len() ==> (#[trigger] r@[p])@.len() == (if p < r@.len() - 1 {
                14
            } else {
                customers@.len() - (r@.len() - 1) * 14
            }),
        customers@.len() > 0 ==> forall|p: int, i: int|
            #![trigger r@[p]@[i]]
            0 <= p < r@.len() && 0 <= i < r@[p]@.len() ==> r@[p]@[i]@ == label_of(
                customers@[p * 14 + i],
            ),
{
    let mut pages: Vec<Vec<LabelCell>> = Vec::new();
    if customers.len() == 0 {
        let mut page: Vec<LabelCell> = Vec::new();
        page.push(LabelCell::Placeholder(NO_CUSTOMERS.to_owned()));
        assert(page_text(page@) =~= seq![LabelText::Placeholder(NO_CUSTOMERS@)]);
        pages.push(page);
        assert(sheet_text(pages@) =~= sheet_pages(customers@));
        return pages;
    }
    let mut next: usize = 0;
    while next < customers.len()
        invariant
            next <= customers.len(),
            next == customers.len() || next == pages.len() * LABELS_PER_PAGE,
            next == customers.len() ==> pages.len() == sheet_count(customers@.len() as int),
            next < customers.len() ==> pages.len() < sheet_count(customers@.len() as int),
            forall|p: int|
                0 <= p < pages.len() ==> page_text(#[trigger] pages@[p]@) == sheet_page(
                    customers@,
                    p,
                ),
        decreases customers.len() - next,
    {
        let ghost first = next as int;
        let ghost number = pages@.len() as int;
        let end: usize = if customers.len() - next < LABELS_PER_PAGE {
            customers.len()
        } else {
            next + LABELS_PER_PAGE
        };
        let mut page: Vec<LabelCell> = Vec::new();
        while next < end
            invariant
                first <= next <= end <= customers.len(),
                page@.len() == next - first,
                forall|i: int|
                    0 <= i < page@.len() ==> (#[trigger] page@[i])@ == label_of(
                        customers@[first + i],
                    ),
            decreases end - next,
        {
            page.push(label_cell(&customers[next]));
            next = next + 1;
        }
        assert(page_text(page@) =~= sheet_page(customers@, number));
        pages.push(page);
    }
    assert(sheet_text(pages@) =~= sheet_pages(customers@));
    proof {
        assert forall|p: int, i: int|
            #![trigger pages@[p]@[i]]
            0 <= p < pages@.len() && 0 <= i < pages@[p]@.len() implies pages@[p]@[i]@ == label_of(
            customers@[p * 14 + i],
        ) by {
            assert(page_text(pages@[p]@)[i] == sheet_page(customers@, p)[i]);
        }
        assert forall|p: int| 0 <= p < pages@.len() implies (#[trigger] pages@[p])@.len() == (if p
            < pages@.len() - 1 {
            14
        } else {
            customers@.len() - (pages@.len() - 1) * 14
        }) by {
            assert(page_text(pages@[p]@).len() == sheet_page(customers@, p).len());
        }
    }
    pages
}

/// Each customer has one label, and the labels fill the sheets in the order
/// of the customers.
pub proof fn law_each_customer_has_a_label(customers: Seq<Customer>, k: int)
    requires
        0 <= k < customers.len(),
    ensures
        0 <= k / (LABELS_PER_PAGE as int) < sheet_pages(customers).len(),
        0 <= k % (LABELS_PER_PAGE as int) < sheet_pages(customers)[k / (
        LABELS_PER_PAGE as int)].len(),
        sheet_pages(customers)[k / (LABELS_PER_PAGE as int)][k % (LABELS_PER_PAGE as int)]
            == label_of(customers[k]),
{
}

/// Each label of the sheets is that of the customer whose turn it is.
pub proof fn law_each_label_is_a_customers(customers: Seq<Customer>, page: int, i: int)
    requires
        customers.len() > 0,
        0 <= page < sheet_pages(customers).len(),
        0 <= i < sheet_pages(customers)[page].len(),
    ensures
        0 <= page * LABELS_PER_PAGE + i < customers.len(),
        sheet_pages(customers)[page][i] == label_of(customers[page * LABELS_PER_PAGE + i]),
{
}

/// There is always a sheet: without customers the one with the message, else
/// as many as the labels need.
pub proof fn law_number_of_sheets(customers: Seq<Customer>)
    ensures
        sheet_pages(customers).len() >= 1,
        sheet_pages(customers).len() * LABELS_PER_PAGE >= customers.len(),
        customers.len() > 0 ==> (sheet_pages(customers).len() - 1) * LABELS_PER_PAGE
            < customers.len(),
{
}

/// No sheet is empty or holds more labels than fit, and each sheet but the
/// last is full.
pub proof fn law_sheets_are_filled(customers: Seq<Customer>, page: int)
    requires
        0 <= page < sheet_pages(customers).len(),
    ensures
        1 <= sheet_pages(customers)[page].len() <= LABELS_PER_PAGE,
        page < sheet_pages(customers).len() - 1 ==> sheet_pages(customers)[page].len()
            == LABELS_PER_PAGE,
{
}

/// Blank parts of an address count as absent ones: addresses whose parts are
/// the same but for that are written the same.
pub proof fn law_blank_is_absent(address: Address, other: Address)
    requires
        present(address.line1) == present(other.line1),
        present(address.line2) == present(other.line2),
        present(address.city) == present(other.city),
        present(address.state) == present(other.state),
        present(address.postal_code) == present(other.postal_code),
        present(address.country) == present(other.country),
    ensures
        label_lines(address) == label_lines(other),
        single_line(address) == single_line(other),
{
}

/// An address has at most four lines on a label, and none of them is blank.
pub proof fn law_label_lines_are_not_blank(address: Address)
    ensures
        label_lines(address).len() <= 4,
        forall|i: int|
            0 <= i < label_lines(address).len() ==> !text::blank(#[trigger] label_lines(address)[i]),
{
    let parts = listed(address.city) + listed(address.state) + listed(address.postal_code);
    if parts.len() > 0 {
        text::lemma_joined_not_blank(parts, " "@);
    }
}

/// The single line of an address is blank exactly if every part is absent or
/// blank, and is then empty.
pub proof fn law_single_line_of_nothing(address: Address)
    ensures
        text::blank(single_line(address)) <==> single_line(address).len() == 0,
        single_line(address).len() == 0 <==> {
            &&& present(address.line1) is None
            &&& present(address.line2) is None
            &&& present(address.city) is None
            &&& present(address.state) is None
            &&& present(address.postal_code) is None
            &&& present(address.country) is None
        },
{
    let parts = address_parts(address);
    if parts.len() > 0 {
        text::lemma_joined_not_blank(parts, ", "@);
    }
}

/// Whether a part stands in one of the lines of a label.
pub open spec fn on_a_line(part: Seq<char>, lines: Seq<Seq<char>>) -> bool {
    exists|i: int| 0 <= i < lines.len() && text::occurs(part, #[trigger] lines[i])
}

proof fn lemma_line_shows_itself(lines: Seq<Seq<char>>, i: int)
    requires
        0 <= i < lines.len(),
    ensures
        on_a_line(lines[i], lines),
{
    let line = lines[i];
    assert(line.subrange(0, line.len() as int) =~= line);
    assert(text::stands_at(line, line, 0));
    assert(text::occurs(line, lines[i]));
}

/// The single line of an address is empty exactly if a label has no line of
/// it, and each part of the address that is there and not blank stands both in
/// the single line and on a line of the label.
pub proof fn law_labels_and_export_show_the_same(address: Address)
    ensures
        single_line(address).len() == 0 <==> label_lines(address).len() == 0,
        single_line(address).len() == 0 <==> address_parts(address).len() == 0,
        forall|k: int|
            0 <= k < address_parts(address).len() ==> {
                &&& text::occurs(#[trigger] address_parts(address)[k], single_line(address))
                &&& on_a_line(address_parts(address)[k], label_lines(address))
            },
{
    law_single_line_of_nothing(address);
    let parts = address_parts(address);
    let lines = label_lines(address);
    let street = listed(address.line1) + listed(address.line2);
    let city = listed(address.city) + listed(address.state) + listed(address.postal_code);
    assert(parts =~= street + city + listed(address.country));
    if city.len() > 0 {
        text::lemma_joined_not_blank(city, " "@);
        assert(lines[street.len() as int] == city_line(address));
    }
    assert forall|k: int| 0 <= k < parts.len() implies {
        &&& text::occurs(#[trigger] parts[k], single_line(address))
        &&& on_a_line(parts[k], lines)
    } by {
        text::law_joined_shows_each_part(parts, ", "@, k);
        if k < street.len() {
            assert(parts[k] == lines[k]);
            lemma_line_shows_itself(lines, k);
        } else if k < street.len() + city.len() {
            text::law_joined_shows_each_part(city, " "@, k - street.len());
            assert(text::occurs(parts[k], lines[street.len() as int]));
        } else {
            assert(parts[k] == lines[lines.len() - 1]);
            lemma_line_shows_itself(lines, lines.len() - 1);
        }
    }
}

proof fn lemma_city_line(address: Address)
    ensures
        ({
            let there = |part: Option<String>| part matches Some(text) && !text::blank(text@);
            let city: Seq<char> = if there(address.city) {
                address.city.unwrap()@
            } else {
                seq![]
            };
            let city_state: Seq<char> = if !there(address.state) {
                city
            } else if city.len() == 0 {
                address.state.unwrap()@
            } else {
                city + " "@ + address.state.unwrap()@
            };
            let city_state_zip: Seq<char> = if !there(address.postal_code) {
                city_state
            } else if city_state.len() == 0 {
                address.postal_code.unwrap()@
            } else {
                city_state + " "@ + address.postal_code.unwrap()@
            };
            &&& city_line(address) == city_state_zip
            &&& city_line(address).len() == 0 <==> !(there(address.city) || there(address.state)
                || there(address.postal_code))
        }),
{
    let city = listed(address.city);
    let state = listed(address.state);
    let zip = listed(address.postal_code);
    let separator = " "@;
    lemma_joined_lists(Seq::empty(), address.city, separator);
    lemma_joined_lists(city, address.state, separator);
    lemma_joined_lists(city + state, address.postal_code, separator);
    assert(Seq::<Seq<char>>::empty() + city =~= city);
    assert(text::joined(Seq::empty(), separator) =~= seq![]);
    lemma_present_text_is_not_empty(address.city);
    lemma_present_text_is_not_empty(address.state);
    lemma_present_text_is_not_empty(address.postal_code);
}

/// A part that counts is not empty.
proof fn lemma_present_text_is_not_empty(part: Option<String>)
    ensures
        part matches Some(text) ==> (!text::blank(text@) ==> text@.len() > 0),
{
}

proof fn lemma_joined_lists(parts: Seq<Seq<char>>, part: Option<String>, separator: Seq<char>)
    ensures
        text::joined(parts + listed(part), separator) == (match present(part) {
            None => text::joined(parts, separator),
            Some(text) => if parts.len() == 0 {
                text
            } else {
                text::joined(parts, separator) + separator + text
            },
        }),
{
    match present(part) {
        None => {
            assert(parts + listed(part) =~= parts);
        },
        Some(text) => {
            assert(parts + listed(part) =~= parts.push(text));
            text::law_joined_part_by_part(parts, separator, text);
            if parts.len() == 0 {
                assert(parts.push(text) =~= seq![text]);
            }
        },
    }
}

/// The lines of an address: each street line that is there and not blank, then
/// the city, the state and the postal code on one line with a space between
/// each two, as far as they are there and not blank, then the country; and no
/// other line.
pub proof fn law_lines_of_an_address(address: Address)
    ensures
        ({
            let there = |part: Option<String>| part matches Some(text) && !text::blank(text@);
            let city: Seq<char> = if there(address.city) {
                address.city.unwrap()@
            } else {
                seq![]
            };
            let city_state: Seq<char> = if !there(address.state) {
                city
            } else if city.len() == 0 {
                address.state.unwrap()@
            } else {
                city + " "@ + address.state.unwrap()@
            };
            let city_state_zip: Seq<char> = if !there(address.postal_code) {
                city_state
            } else if city_state.len() == 0 {
                address.postal_code.unwrap()@
            } else {
                city_state + " "@ + address.postal_code.unwrap()@
            };
            let after_1: int = if there(address.line1) {
                1
            } else {
                0
            };
            let after_2: int = if there(address.line2) {
                after_1 + 1
            } else {
                after_1
            };
            let after_city: int = if there(address.city) || there(address.state) || there(address.postal_code) {
                after_2 + 1
            } else {
                after_2
            };
            let after_all: int = if there(address.country) {
                after_city + 1
            } else {
                after_city
            };
            &&& label_lines(address).len() == after_all
            &&& there(address.line1) ==> label_lines(address)[0] == address.line1.unwrap()@
            &&& there(address.line2) ==> label_lines(address)[after_1] == address.line2.unwrap()@
            &&& after_2 < after_city ==> label_lines(address)[after_2] == city_state_zip
            &&& there(address.country) ==> label_lines(address)[after_city] == address.country.unwrap()@
        }),
{
    lemma_city_line(address);
}

/// The single line of an address: each part that is there and not blank, in the
/// order of the label, with a comma and a space before each but the first.
pub proof fn law_single_line_part_by_part(address: Address)
    ensures
        ({
            let with = |before: Seq<char>, part: Option<String>|
                if part is None || text::blank(part.unwrap()@) {
                    before
                } else if before.len() == 0 {
                    part.unwrap()@
                } else {
                    before + ", "@ + part.unwrap()@
                };
            let street = with(with(seq![], address.line1), address.line2);
            let city = with(with(with(street, address.city), address.state), address.postal_code);
            single_line(address) == with(city, address.country)
        }),
{
    let separator = ", "@;
    let with = |before: Seq<char>, part: Option<String>|
        if part is None || text::blank(part.unwrap()@) {
            before
        } else if before.len() == 0 {
            part.unwrap()@
        } else {
            before + ", "@ + part.unwrap()@
        };
    let none: Seq<Seq<char>> = seq![];
    let l1 = none + listed(address.line1);
    let l2 = l1 + listed(address.line2);
    let l3 = l2 + listed(address.city);
    let l4 = l3 + listed(address.state);
    let l5 = l4 + listed(address.postal_code);
    let l6 = l5 + listed(address.country);
    reveal_strlit(", ");
    assert(text::joined(none, separator) =~= seq![]);
    lemma_with(none, seq![], address.line1);
    let t1 = with(seq![], address.line1);
    lemma_with(l1, t1, address.line2);
    let t2 = with(t1, address.line2);
    lemma_with(l2, t2, address.city);
    let t3 = with(t2, address.city);
    lemma_with(l3, t3, address.state);
    let t4 = with(t3, address.state);
    lemma_with(l4, t4, address.postal_code);
    let t5 = with(t4, address.postal_code);
    lemma_with(l5, t5, address.country);
    assert(l6 =~= address_parts(address));
}

proof fn lemma_with(parts: Seq<Seq<char>>, before: Seq<char>, part: Option<String>)
    requires
        before == text::joined(parts, ", "@),
        before.len() == 0 <==> parts.len() == 0,
    ensures
        ({
            let after = if part is None || text::blank(part.unwrap()@) {
                before
            } else if before.len() == 0 {
                part.unwrap()@
            } else {
                before + ", "@ + part.unwrap()@
            };
            &&& text::joined(parts + listed(part), ", "@) == after
            &&& after.len() == 0 <==> (parts + listed(part)).len() == 0
        }),
{
    reveal_strlit(", ");
    lemma_joined_lists(parts, part, ", "@);
    lemma_present_text_is_not_empty(part);
}

/// A customer is called by the name, whatever else is there; without a name by
/// the email address, and without both by the id.
pub proof fn law_what_a_customer_is_called(customer: Customer)
    ensures
        customer.name matches Some(name) ==> display_name(customer) == name@,
        customer.name is None ==> (customer.email matches Some(email) ==> display_name(customer)
            == email@),
        customer.name is None && customer.email is None ==> display_name(customer) == customer.id@,
{
}

/// The label of a customer with an address holds its lines and no note, whatever
/// the name, the email address and the id; the label of one without an address
/// holds no line and the note. Customers with the same address have the same
/// lines.
pub proof fn law_label_holds_the_address(customer: Customer, other: Customer)
    ensures
        label_of(customer) is Customer,
        label_of(customer)->no_address <==> customer.address is None,
        customer.address is None ==> label_of(customer)->lines.len() == 0,
        customer.address matches Some(address) ==> label_of(customer)->lines == label_lines(address),
        customer.address matches Some(address) ==> forall|k: int|
            0 <= k < address_parts(address).len() ==> on_a_line(
                #[trigger] address_parts(address)[k],
                label_of(customer)->lines,
            ),
        customer.address == other.address ==> label_of(customer)->lines == label_of(other)->lines,
        customer.name matches Some(name) ==> label_of(customer)->name == name@,
        customer.name is None ==> (customer.email matches Some(email) ==> label_of(customer)->name
            == email@),
        customer.name is None && customer.email is None ==> label_of(customer)->name
            == customer.id@,
{
    if customer.address is Some {
        law_labels_and_export_show_the_same(customer.address.unwrap());
    }
}

/// The sheets have fourteen places each, which the customers' labels take in
/// order: the label of the customer at `k` stands at the place `k % 14` of the
/// sheet `k / 14`, and there are no other labels. Without customers there is one
/// sheet with one label, which says so.
pub proof fn law_places_on_the_sheets(customers: Seq<Customer>, k: int)
    ensures
        0 <= k < customers.len() ==> {
            &&& k / 14 < sheet_pages(customers).len()
            &&& k % 14 < sheet_pages(customers)[k / 14].len()
            &&& sheet_pages(customers)[k / 14][k % 14] == label_of(customers[k])
        },
        forall|page: int, i: int|
            #![trigger sheet_pages(customers)[page][i]]
            customers.len() > 0 && 0 <= page < sheet_pages(customers).len() && 0 <= i
                < sheet_pages(customers)[page].len() ==> 0 <= page * 14 + i < customers.len() && i
                < 14,
        customers.len() > 0 ==> forall|page: int|
            0 <= page < sheet_pages(customers).len() ==> (#[trigger] sheet_pages(
                customers,
            )[page]).len() > 0,
        customers.len() == 0 ==> sheet_pages(customers) == seq![
            seq![LabelText::Placeholder("No customers found."@)],
        ],
{
}

/// What stands on a label is what its cell holds.
pub proof fn law_label_text_is_the_cells(cell: LabelCell)
    ensures
        match cell {
            LabelCell::Placeholder(message) => cell@ == LabelText::Placeholder(message@),
            LabelCell::Customer { name, lines, no_address } => {
                &&& cell@ is Customer
                &&& cell@->name == name@
                &&& cell@->no_address == no_address
                &&& cell@->lines.len() == lines@.len()
                &&& forall|i: int|
                    0 <= i < lines@.len() ==> #[trigger] cell@->lines[i] == lines@[i]@
            },
        },
{
}

/// What stands on the sheets is what their cells hold, sheet by sheet and label
/// by label.
pub proof fn law_sheet_text_is_the_cells(pages: Seq<Vec<LabelCell>>)
    ensures
        sheet_text(pages).len() == pages.len(),
        forall|p: int|
            0 <= p < pages.len() ==> (#[trigger] sheet_text(pages)[p]).len() == pages[p]@.len(),
        forall|p: int, i: int|
            #![trigger sheet_text(pages)[p][i]]
            0 <= p < pages.len() && 0 <= i < pages[p]@.len() ==> sheet_text(pages)[p][i]
                == pages[p]@[i]@,
{
}

} // verus!
