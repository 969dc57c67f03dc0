use stripe_ticket_printer::billing::{Address, Customer};
use stripe_ticket_printer::labels::{render_customer_report_pages, LabelCell};
use stripe_ticket_printer::sheet::{
    build_typst_engine, render_label_sheet_pdf, rendering_outcome, report_input,
};
use typst::foundations::{Dict, IntoValue, Value};

fn fake_customer(index: usize, name: Option<&str>, address: Option<Address>) -> Customer {
    Customer {
        address,
        email: Some(format!("customer{index}@example.com")),
        id: format!("cus_test{index}"),
        name: name.map(str::to_owned),
    }
}

/// Generates a label sheet for 17 customers (forcing a second page),
/// including one with no address and one with special characters in the
/// name, and verifies Typst compiles it into a valid, multi-page PDF.
#[test]
fn label_sheet_compiles_to_multi_page_pdf() {
    let mut customers: Vec<Customer> = (0..16)
        .map(|i| {
            fake_customer(
                i,
                Some("Jane Doe"),
                Some(Address {
                    city: Some("Springfield".to_string()),
                    country: Some("US".to_string()),
                    line1: Some("123 Main St".to_string()),
                    line2: Some("Apt 4B".to_string()),
                    postal_code: Some("62704".to_string()),
                    state: Some("IL".to_string()),
                }),
            )
        })
        .collect();
    customers.push(fake_customer(16, Some("No Address & Co. 50%"), None));

    let pages = render_customer_report_pages(&customers);
    assert_eq!(pages.len(), 2, "expected 17 customers to span 2 pages");
    assert_eq!(pages[0].len(), 14);
    assert_eq!(pages[1].len(), 3);
    assert!(matches!(
        &pages[1][2],
        LabelCell::Customer { name, no_address: true, .. } if name == "No Address & Co. 50%"
    ));

    let engine = build_typst_engine();
    let pdf = render_label_sheet_pdf(&engine, pages).expect("typst should compile the label sheet");
    assert!(pdf.starts_with(b"%PDF"), "output is not a valid PDF");

    let document =
        lopdf::Document::load_mem(&pdf).expect("typst output should be a parseable PDF");
    assert_eq!(
        document.get_pages().len(),
        2,
        "expected exactly 2 pages for 17 customers"
    );
}

#[test]
fn empty_customer_list_still_produces_a_valid_pdf() {
    let pages = render_customer_report_pages(&[]);
    assert!(matches!(
        &pages[..],
        [page] if matches!(&page[..], [LabelCell::Placeholder(text)] if text == "No customers found.")
    ));

    let engine = build_typst_engine();
    let pdf = render_label_sheet_pdf(&engine, pages).expect("typst should compile an empty sheet");
    assert!(pdf.starts_with(b"%PDF"));
}

#[test]
fn full_sheets_stay_on_their_page() {
    let customers: Vec<Customer> = (0..28).map(|i| fake_customer(i, Some("A"), None)).collect();
    let pages = render_customer_report_pages(&customers);
    assert_eq!(pages.len(), 2);
    assert_eq!(pages[1].len(), 14);

    let pdf = render_label_sheet_pdf(&build_typst_engine(), pages).unwrap();
    let document = lopdf::Document::load_mem(&pdf).unwrap();
    assert_eq!(document.get_pages().len(), 2);
}

fn entry(dict: &Dict, key: &str) -> Value {
    dict.get(key).unwrap().clone()
}

#[test]
fn customer_label_becomes_a_dictionary() {
    let dict = LabelCell::Customer {
        name: "Jane".to_string(),
        lines: vec!["1 Road".to_string(), "Town".to_string()],
        no_address: false,
    }
    .into_value();
    assert_eq!(dict.len(), 4);
    assert_eq!(entry(&dict, "kind"), "customer".into_value());
    assert_eq!(entry(&dict, "name"), "Jane".into_value());
    assert_eq!(entry(&dict, "lines"), vec!["1 Road", "Town"].into_value());
    assert_eq!(entry(&dict, "no_address"), Value::Bool(false));
}

#[test]
fn placeholder_label_becomes_a_dictionary() {
    let dict = LabelCell::Placeholder("Nobody".to_string()).into_value();
    assert_eq!(dict.len(), 2);
    assert_eq!(entry(&dict, "kind"), "placeholder".into_value());
    assert_eq!(entry(&dict, "text"), "Nobody".into_value());
}

#[test]
fn sheets_become_nested_arrays() {
    let cell = |text: &str| LabelCell::Placeholder(text.to_string());
    let dict = report_input(vec![vec![cell("a"), cell("b")], vec![cell("c")]]);
    assert_eq!(dict.len(), 1);
    let expected = vec![
        vec![cell("a").into_value(), cell("b").into_value()],
        vec![cell("c").into_value()],
    ];
    assert_eq!(entry(&dict, "pages"), expected.into_value());
}

#[test]
fn rendering_failures_say_what_failed() {
    assert_eq!(rendering_outcome(Ok(Ok(vec![1, 2]))), Ok(vec![1, 2]));
    assert_eq!(
        rendering_outcome(Ok(Err("x".to_string()))),
        Err("typst PDF export failed: x".to_string())
    );
    assert_eq!(
        rendering_outcome(Err("y".to_string())),
        Err("typst compilation failed: y".to_string())
    );
}

#[test]
fn empty_lists_are_empty_arrays() {
    let nothing = report_input(vec![]);
    assert_eq!(entry(&nothing, "pages"), Vec::<String>::new().into_value());
    let label = LabelCell::Customer { name: String::new(), lines: vec![], no_address: true };
    assert_eq!(entry(&label.into_value(), "lines"), entry(&nothing, "pages"));
}
