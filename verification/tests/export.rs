use stripe_ticket_printer::billing::{
    Address, Customer, Expandable, Subscription, SubscriptionItem, SubscriptionStatus,
};
use stripe_ticket_printer::csv::{
    all_amounts_fit, csv_field, format_amount, render_subscriptions_csv, subscription_amount,
    subscription_total,
};

fn item(unit_amount: Option<i64>, quantity: Option<u64>) -> SubscriptionItem {
    item_in("usd", unit_amount, quantity)
}

fn item_in(currency: &str, unit_amount: Option<i64>, quantity: Option<u64>) -> SubscriptionItem {
    SubscriptionItem { currency: currency.to_string(), unit_amount, quantity }
}

fn subscription(customer: Expandable, items: Vec<SubscriptionItem>) -> Subscription {
    Subscription {
        id: "sub_1".to_string(),
        status: SubscriptionStatus::Active,
        start_date: 1_709_164_800,
        ended_at: None,
        customer,
        items,
    }
}

fn customer(name: Option<&str>, email: Option<&str>, address: Option<Address>) -> Expandable {
    Expandable::Object(Customer {
        id: "cus_1".to_string(),
        name: name.map(str::to_owned),
        email: email.map(str::to_owned),
        address,
    })
}

fn unknown() -> Expandable {
    Expandable::Id("cus_2".to_string())
}

#[test]
fn fields_are_quoted_where_needed() {
    assert_eq!(csv_field(""), "");
    assert_eq!(csv_field("plain text"), "plain text");
    assert_eq!(csv_field("a,b"), "\"a,b\"");
    assert_eq!(csv_field("say \"hi\""), "\"say \"\"hi\"\"\"");
    assert_eq!(csv_field("two\nlines"), "\"two\nlines\"");
    assert_eq!(csv_field("cr\r"), "\"cr\r\"");
    assert_eq!(csv_field("\""), "\"\"\"\"");
    assert_eq!(csv_field("Zoë ☃"), "Zoë ☃");
}

fn amount(items: Vec<SubscriptionItem>) -> String {
    subscription_amount(&subscription(unknown(), items))
}

fn total(items: Vec<SubscriptionItem>) -> Option<i128> {
    subscription_total(&subscription(unknown(), items))
}

#[test]
fn amounts_have_two_decimal_places() {
    let amount_of = |cents| amount(vec![item(Some(cents), None)]);
    assert_eq!(amount_of(0), "0.00");
    assert_eq!(amount_of(5), "0.05");
    assert_eq!(amount_of(99), "0.99");
    assert_eq!(amount_of(100), "1.00");
    assert_eq!(amount_of(123_456), "1234.56");
    assert_eq!(amount_of(-5), "-0.05");
    assert_eq!(amount_of(-123_456), "-1234.56");
    assert_eq!(amount_of(i64::MAX), "92233720368547758.07");
    assert_eq!(amount_of(i64::MIN), "-92233720368547758.08");
}

#[test]
fn amounts_agree_with_division() {
    for cents in [0i64, 1, 10, 50, 101, 1999, 12_345, 1 << 40, 1 << 50, (1 << 52) - 1, 1 << 52] {
        for signed in [cents, -cents] {
            assert_eq!(
                amount(vec![item(Some(signed), None)]),
                format!("{:.2}", signed as f64 / 100.0)
            );
        }
    }
}

#[test]
fn amounts_are_in_major_units_of_their_currency() {
    assert_eq!(amount(vec![item_in("jpy", Some(500), Some(1))]), "500.00");
    assert_eq!(amount(vec![item_in("krw", Some(-7), Some(3))]), "-21.00");
    assert_eq!(amount(vec![item_in("eur", Some(500), Some(1))]), "5.00");
    assert_eq!(amount(vec![item_in("kwd", Some(500), Some(1))]), "0.50");
    assert_eq!(amount(vec![item_in("isk", Some(500), Some(1))]), "5.00");
    for code in [
        "bif", "clp", "djf", "gnf", "jpy", "kmf", "krw", "mga", "pyg", "rwf", "vnd", "vuv", "xaf",
        "xof", "xpf",
    ] {
        assert_eq!(total(vec![item_in(code, Some(12), None)]), Some(12_000));
    }
    for code in ["bhd", "jod", "kwd", "omr", "tnd"] {
        assert_eq!(total(vec![item_in(code, Some(12), None)]), Some(12));
    }
    for code in ["usd", "gbp", "isk", "ugx", "", "jp", "jpyx"] {
        assert_eq!(total(vec![item_in(code, Some(12), None)]), Some(120));
    }
}

#[test]
fn lines_in_one_currency_are_converted_at_once() {
    let yen = vec![item_in("jpy", Some(300), Some(2)), item_in("jpy", Some(-50), None)];
    assert_eq!(total(yen), Some((300 * 2 - 50) * 1000));
    let cents = vec![item(Some(199), Some(3)), item(Some(1), None)];
    assert_eq!(total(cents), Some((199 * 3 + 1) * 10));
}

#[test]
fn thousandths_are_rounded_to_the_nearest_hundredth() {
    assert_eq!(format_amount(1_234), "1.23");
    assert_eq!(format_amount(1_236), "1.24");
    assert_eq!(format_amount(1_235), "1.24");
    assert_eq!(format_amount(1_225), "1.22");
    assert_eq!(format_amount(125), "0.12");
    assert_eq!(format_amount(375), "0.38");
    assert_eq!(format_amount(-125), format!("{:.2}", -0.125f64));
    assert_eq!(format_amount(375), format!("{:.2}", 0.375f64));
    assert_eq!(format_amount(9_996), "10.00");
    assert_eq!(format_amount(-4), "-0.00");
    assert_eq!(format_amount(-4), format!("{:.2}", -0.004f64));
    assert_eq!(format_amount(i128::MAX), "170141183460469231731687303715884105.73");
    assert_eq!(format_amount(i128::MIN), "-170141183460469231731687303715884105.73");
}

#[test]
fn amounts_are_summed_over_the_lines() {
    let lines = || {
        vec![
            item(Some(1000), Some(3)),
            item(Some(250), None),
            item(None, Some(7)),
            item(Some(-50), Some(1)),
        ]
    };
    assert_eq!(total(lines()), Some(32_000));
    assert_eq!(amount(lines()), "32.00");
    assert_eq!(amount(vec![]), "0.00");
}

#[test]
fn amounts_saturate_within_a_line() {
    let most = Some(i64::MAX as i128 * 10);
    assert_eq!(total(vec![item(Some(2), Some(u64::MAX))]), most);
    assert_eq!(total(vec![item(Some(1), Some(u64::MAX))]), most);
    assert_eq!(total(vec![item(Some(i64::MIN), Some(2))]), Some(i64::MIN as i128 * 10));
}

#[test]
fn sums_that_do_not_fit_are_noticed() {
    let lines = || vec![item(Some(i64::MAX), None), item(Some(1), None)];
    let mut subscriptions = vec![subscription(unknown(), lines())];
    assert_eq!(subscription_total(&subscriptions[0]), None);
    assert!(all_amounts_fit(&subscriptions));
    subscriptions.push(subscription(customer(None, None, None), lines()));
    assert!(!all_amounts_fit(&subscriptions));
}

#[test]
fn the_export_has_a_row_per_expanded_subscription() {
    let address = Address {
        city: Some("Springfield".to_string()),
        country: Some("US".to_string()),
        line1: Some("123 Main St".to_string()),
        line2: Some("  ".to_string()),
        postal_code: Some("62704".to_string()),
        state: None,
    };
    let subscriptions = vec![
        subscription(
            customer(Some("Doe, Jane"), None, Some(address)),
            vec![item(Some(1050), Some(2))],
        ),
        subscription(unknown(), vec![item(Some(1), None)]),
        subscription(customer(None, Some("a@example.com"), None), vec![]),
        subscription(customer(None, None, None), vec![item(Some(7), None)]),
    ];
    assert!(all_amounts_fit(&subscriptions));
    assert_eq!(
        render_subscriptions_csv(&subscriptions),
        "name,address,sub_start_date,sub_amount\n\
         \"Doe, Jane\",\"123 Main St, Springfield, 62704, US\",2024-02-29,21.00\n\
         a@example.com,,2024-02-29,0.00\n\
         cus_1,,2024-02-29,0.07\n"
    );
}

#[test]
fn the_empty_export_is_its_header() {
    assert_eq!(
        render_subscriptions_csv(&[]),
        "name,address,sub_start_date,sub_amount\n"
    );
}

/// Splits CSV text into lines of fields.
fn read_back(text: &str) -> Vec<Vec<String>> {
    let mut lines = Vec::new();
    let mut fields = Vec::new();
    let mut field = String::new();
    let mut quoted = false;
    let mut chars = text.chars().peekable();
    while let Some(c) = chars.next() {
        match c {
            '"' if quoted && chars.peek() == Some(&'"') => {
                chars.next();
                field.push('"');
            }
            '"' => quoted = !quoted,
            ',' if !quoted => fields.push(std::mem::take(&mut field)),
            '\n' if !quoted => {
                fields.push(std::mem::take(&mut field));
                lines.push(std::mem::take(&mut fields));
            }
            c => field.push(c),
        }
    }
    lines
}

#[test]
fn the_export_reads_back() {
    let name = "a \"quoted\", name\r\nin two lines\"";
    let subscriptions = vec![
        subscription(customer(Some(name), None, None), vec![item(Some(-5), None)]),
        subscription(customer(Some(""), None, None), vec![]),
    ];
    let lines = read_back(&render_subscriptions_csv(&subscriptions));
    assert_eq!(lines.len(), 3);
    assert_eq!(lines[0], vec!["name", "address", "sub_start_date", "sub_amount"]);
    assert_eq!(lines[1], vec![name, "", "2024-02-29", "-0.05"]);
    assert_eq!(lines[2], vec!["", "", "2024-02-29", "0.00"]);
}

fn rows() -> Vec<Subscription> {
    vec![
        subscription(customer(Some("A"), None, None), vec![item(Some(100), None)]),
        subscription(unknown(), vec![item(Some(1), None)]),
        subscription(customer(Some("A"), None, None), vec![]),
    ]
}

#[test]
fn exports_append() {
    let header = "name,address,sub_start_date,sub_amount\n";
    let once = render_subscriptions_csv(&rows());
    let twice: Vec<_> = rows().into_iter().chain(rows()).collect();
    assert_eq!(
        render_subscriptions_csv(&twice),
        format!("{once}{}", once.strip_prefix(header).unwrap())
    );
    assert!(once.ends_with('\n'));
    assert_eq!(once.lines().count(), 3);
}

#[test]
fn unexpanded_customers_leave_no_trace() {
    let kept: Vec<_> =
        rows().into_iter().filter(|s| s.customer.as_object().is_some()).collect();
    assert_eq!(kept.len(), 2);
    assert_eq!(render_subscriptions_csv(&kept), render_subscriptions_csv(&rows()));
}

#[test]
fn fields_can_be_unquoted() {
    let unquoted = |field: &str| match field.strip_prefix('"') {
        Some(rest) => rest.strip_suffix('"').unwrap().replace("\"\"", "\""),
        None => field.to_string(),
    };
    let values = ["", "a", "\"", "\"\"", "a,b", "\n", "\r\"x\"", "a\"\"b", ",\""];
    for value in values {
        assert_eq!(unquoted(&csv_field(value)), value);
        let plain = !value.contains([',', '"', '\n', '\r']);
        assert_eq!(csv_field(value) == value, plain);
        for other in values {
            assert_eq!(csv_field(value) == csv_field(other), value == other);
        }
    }
}
