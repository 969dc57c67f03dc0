use stripe_ticket_printer::billing::{Address, Customer};
use stripe_ticket_printer::labels::{
    address_lines, format_address_single_line, label_cell, non_empty,
    render_customer_report_pages, LabelCell,
};
use stripe_ticket_printer::text::{is_blank, join, replace};

fn address(parts: [&str; 6]) -> Address {
    let part = |i: usize| if parts[i] == "-" { None } else { Some(parts[i].to_string()) };
    Address {
        line1: part(0),
        line2: part(1),
        city: part(2),
        state: part(3),
        postal_code: part(4),
        country: part(5),
    }
}

#[test]
fn blank_text_is_what_trims_to_nothing() {
    for code in 0..=0x10FFFF {
        if let Some(c) = char::from_u32(code) {
            let mut buffer = [0; 4];
            assert_eq!(is_blank(c.encode_utf8(&mut buffer)), c.is_whitespace(), "{c:?}");
        }
    }
    assert!(is_blank(""));
    assert!(is_blank(" \t\u{3000}\n"));
    assert!(!is_blank("  x  "));
}

#[test]
fn blank_values_are_absent() {
    assert_eq!(non_empty(None), None);
    assert_eq!(non_empty(Some("")), None);
    assert_eq!(non_empty(Some(" \u{a0}")), None);
    assert_eq!(non_empty(Some(" x ")), Some(" x "));
}

#[test]
fn addresses_have_up_to_four_lines() {
    let full = address(["123 Main St", "Apt 4B", "Springfield", "IL", "62704", "US"]);
    assert_eq!(
        address_lines(&full),
        vec!["123 Main St", "Apt 4B", "Springfield IL 62704", "US"]
    );
    assert_eq!(
        format_address_single_line(&full),
        "123 Main St, Apt 4B, Springfield, IL, 62704, US"
    );
}

#[test]
fn blank_and_absent_parts_are_omitted() {
    for address in [
        address(["1 Road", "-", "-", "-", "1234", "-"]),
        address(["1 Road", "", " ", "\t", "1234", "\u{2003}"]),
    ] {
        assert_eq!(address_lines(&address), vec!["1 Road", "1234"]);
        assert_eq!(format_address_single_line(&address), "1 Road, 1234");
    }
    let nothing = address(["-", " ", "-", "", "-", "-"]);
    assert!(address_lines(&nothing).is_empty());
    assert_eq!(format_address_single_line(&nothing), "");
}

#[test]
fn labels_name_the_customer() {
    let name_of = |name: Option<&str>, email: Option<&str>| {
        let customer = Customer {
            id: "cus_1".to_string(),
            name: name.map(str::to_owned),
            email: email.map(str::to_owned),
            address: None,
        };
        match label_cell(&customer) {
            LabelCell::Customer { name, lines, no_address } => {
                assert!(lines.is_empty());
                assert!(no_address);
                name
            }
            LabelCell::Placeholder(_) => panic!("a customer's label has the customer"),
        }
    };
    assert_eq!(name_of(Some("Jane"), Some("a@example.com")), "Jane");
    assert_eq!(name_of(Some(""), Some("a@example.com")), "");
    assert_eq!(name_of(None, Some("a@example.com")), "a@example.com");
    assert_eq!(name_of(None, None), "cus_1");
}

#[test]
fn labels_hold_the_address_lines() {
    let customer = Customer {
        id: "cus_1".to_string(),
        name: Some("Jane".to_string()),
        email: None,
        address: Some(address(["1 Road", "-", "Town", "-", "-", "-"])),
    };
    assert!(matches!(
        label_cell(&customer),
        LabelCell::Customer { lines, no_address: false, .. } if lines == ["1 Road", "Town"]
    ));
}

#[test]
fn sheets_are_filled_in_order() {
    let customers: Vec<Customer> = (0..29)
        .map(|i| Customer { id: format!("{i}"), name: None, email: None, address: None })
        .collect();
    let pages = render_customer_report_pages(&customers);
    assert_eq!(pages.iter().map(Vec::len).collect::<Vec<_>>(), vec![14, 14, 1]);
    for k in 0..29 {
        assert!(matches!(
            &pages[k / 14][k % 14],
            LabelCell::Customer { name, .. } if *name == format!("{k}")
        ));
    }
}

#[test]
fn texts_are_joined_and_replaced() {
    let parts = vec!["a".to_string(), "b".to_string(), "c".to_string()];
    assert_eq!(join(&parts, ", "), "a, b, c");
    assert_eq!(join(&vec![], ", "), "");
    assert_eq!(replace("x%%A%%y%%A%%", "%%A%%", "é"), "xéyé");
    assert_eq!(replace("aaa", "aa", "b"), "ba");
    assert_eq!(replace("abc", "x", "y"), "abc");
}

#[test]
fn both_forms_of_an_address_show_its_parts() {
    let full = ["1 Road", "Flat 2", "Town", "ST", "1234", "UK"];
    for mask in 0..64 {
        let mut parts = ["-"; 6];
        for i in 0..6 {
            if mask & (1 << i) != 0 {
                parts[i] = full[i];
            }
        }
        let address = address(parts);
        let line = format_address_single_line(&address);
        let lines = address_lines(&address);
        assert_eq!(line.is_empty(), lines.is_empty());
        for (i, part) in full.iter().enumerate() {
            let there = mask & (1 << i) != 0;
            assert_eq!(line.contains(part), there);
            assert_eq!(lines.iter().any(|l| l.contains(part)), there);
        }
    }
}
