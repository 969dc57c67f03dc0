use stripe_ticket_printer::billing::{Customer, Expandable, Subscription, SubscriptionStatus};
use stripe_ticket_printer::calendar::Date;
use stripe_ticket_printer::labels::LabelCell;
use stripe_ticket_printer::listing::{Listing, Page};
use stripe_ticket_printer::report::{
    begin_report, index_page, listed_subscriptions, report_csv_response, report_pages,
    report_response, Body, Rendering,
};
use stripe_ticket_printer::templates::INDEX_HTML_TEMPLATE;

fn subscription(id: &str, customer: &str) -> Subscription {
    Subscription {
        id: id.to_string(),
        status: SubscriptionStatus::Active,
        start_date: 0,
        ended_at: None,
        customer: Expandable::Object(Customer {
            id: customer.to_string(),
            name: Some(customer.to_string()),
            email: None,
            address: None,
        }),
        items: vec![],
    }
}

fn ended_listing() -> Listing {
    let mut listing = begin_report("2024-01-01", 1_800_000_000).unwrap();
    listing.receive(Ok(Page {
        data: vec![subscription("1", "a"), subscription("2", "b"), subscription("3", "a")],
        has_more: false,
    }));
    listing
}

fn failed_listing() -> Listing {
    let mut listing = begin_report("2024-01-01", 1_800_000_000).unwrap();
    listing.receive(Err("no route".to_string()));
    listing
}

#[test]
fn the_index_page_has_its_dates() {
    let today = Date::new(2024, 4, 30).unwrap();
    assert_eq!(
        index_page("%%TODAY%%|%%DEFAULT_DATE%%|%%TODAY%%", today),
        "2024-04-30|2024-02-29|2024-04-30"
    );
    let page = index_page(INDEX_HTML_TEMPLATE, today);
    assert!(page.contains("value=\"2024-02-29\" max=\"2024-04-30\""));
    assert!(!page.contains("%%"));
}

#[test]
fn a_report_begins_with_its_period() {
    let listing = begin_report("2024-01-01", 1_800_000_000).unwrap();
    assert_eq!(listing.start_date, 1_704_067_200);
    assert_eq!(listing.now, 1_800_000_000);
    assert!(listing.request().is_some());
    assert_eq!(begin_report("soon", 0).unwrap_err().status, 400);
}

#[test]
fn labels_are_for_each_customer_once() {
    let pages = report_pages(ended_listing()).unwrap();
    assert_eq!(pages.len(), 1);
    let names: Vec<_> = pages[0]
        .iter()
        .map(|cell| match cell {
            LabelCell::Customer { name, .. } => name.as_str(),
            LabelCell::Placeholder(text) => text.as_str(),
        })
        .collect();
    assert_eq!(names, vec!["a", "b"]);
}

#[test]
fn the_csv_answer_has_a_row_per_subscription() {
    let response = report_csv_response(ended_listing()).unwrap();
    assert_eq!(response.content_type, "text/csv; charset=utf-8");
    assert_eq!(
        response.content_disposition,
        "attachment; filename=\"subscriptions.csv\""
    );
    assert!(matches!(
        response.body,
        Body::Text(text) if text == "name,address,sub_start_date,sub_amount\n\
            a,,1970-01-01,0.00\nb,,1970-01-01,0.00\na,,1970-01-01,0.00\n"
    ));
}

#[test]
fn failures_at_stripe_are_a_bad_gateway() {
    let error = listed_subscriptions(failed_listing()).unwrap_err();
    assert_eq!(error.status, 502);
    assert_eq!(error.message, "Stripe API call failed: no route");
    assert_eq!(report_pages(failed_listing()).unwrap_err().status, 502);
    assert_eq!(report_csv_response(failed_listing()).unwrap_err().status, 502);
}

#[test]
fn rendered_labels_are_answered() {
    let response = report_response(Rendering::Pdf(vec![37, 80])).unwrap();
    assert_eq!(response.content_type, "application/pdf");
    assert_eq!(
        response.content_disposition,
        "inline; filename=\"shipping-labels.pdf\""
    );
    assert!(matches!(response.body, Body::Bytes(bytes) if bytes == [37, 80]));

    let error = report_response(Rendering::Failed("x".to_string())).unwrap_err();
    assert_eq!(error.status, 500);
    assert_eq!(error.message, "PDF generation failed: x");
    let error = report_response(Rendering::Panicked("y".to_string())).unwrap_err();
    assert_eq!(error.status, 500);
    assert_eq!(error.message, "PDF render task panicked: y");
}

#[test]
fn labels_are_only_for_active_customers() {
    let mut ended = subscription("1", "ended");
    ended.ended_at = Some(1_704_067_199);
    let mut ending = subscription("2", "ending");
    ending.ended_at = Some(1_704_067_200);
    let mut listing = begin_report("2024-01-01", 1_800_000_000).unwrap();
    listing.receive(Ok(Page { data: vec![ended], has_more: true }));
    listing.receive(Ok(Page { data: vec![ending], has_more: false }));
    let pages = report_pages(listing).unwrap();
    assert_eq!(pages.len(), 1);
    assert!(matches!(
        &pages[0][..],
        [LabelCell::Customer { name, .. }] if name == "ending"
    ));
}

#[test]
fn rows_and_labels_have_the_same_customers() {
    let pages = report_pages(ended_listing()).unwrap();
    let response = report_csv_response(ended_listing()).unwrap();
    let csv = match response.body {
        Body::Text(text) => text,
        Body::Bytes(_) => panic!("the export is text"),
    };
    let mut rows: Vec<&str> = csv.lines().skip(1).map(|l| l.split(',').next().unwrap()).collect();
    rows.dedup();
    for cell in &pages[0] {
        assert!(matches!(cell, LabelCell::Customer { name, .. } if rows.contains(&name.as_str())));
    }
    for row in rows {
        assert!(pages[0]
            .iter()
            .any(|cell| matches!(cell, LabelCell::Customer { name, .. } if name == row)));
    }
}

#[test]
fn no_customers_give_a_single_message() {
    let mut listing = begin_report("2024-01-01", 1_800_000_000).unwrap();
    listing.receive(Ok(Page { data: vec![], has_more: false }));
    let pages = report_pages(listing).unwrap();
    assert!(matches!(
        &pages[..],
        [page] if matches!(&page[..], [LabelCell::Placeholder(text)] if text == "No customers found.")
    ));
}

#[test]
fn the_index_page_holds_no_marker() {
    let today = Date::new(2024, 4, 30).unwrap();
    for template in [
        "%%DEFAULT_DATE%%%%TODAY%%",
        "%%TODAY%%DEFAULT_DATE%%TODAY%%",
        "%%%%TODAY%%TODAY%%",
        "%%DEFAULT_%%TODAY%%DATE%%",
        "%%DEFAULT_DATE%",
    ] {
        let page = index_page(template, today);
        assert!(!page.contains("%%TODAY%%"), "{page}");
        assert!(!page.contains("%%DEFAULT_DATE%%"), "{page}");
    }
}
