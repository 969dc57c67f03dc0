use stripe_ticket_printer::billing::{
    subscription_active_between, subscription_overlaps_period, Customer, Expandable, Subscription,
    SubscriptionStatus,
};
use stripe_ticket_printer::customers::distinct_customers;
use stripe_ticket_printer::listing::{Listing, ListingState, Page};

/// A day count of seconds, for building readable Unix timestamps in tests.
const DAY: i64 = 24 * 60 * 60;

#[test]
fn overlaps_when_subscription_is_still_active_and_started_before_the_period() {
    let period_start = 100 * DAY;
    let now = 200 * DAY;
    assert!(subscription_overlaps_period(
        &SubscriptionStatus::Active,
        50 * DAY,
        None,
        period_start,
        now,
    ));
}

#[test]
fn excludes_subscription_canceled_before_the_period_started() {
    let period_start = 100 * DAY;
    let now = 200 * DAY;
    assert!(!subscription_overlaps_period(
        &SubscriptionStatus::Canceled,
        10 * DAY,
        Some(50 * DAY),
        period_start,
        now,
    ));
}

#[test]
fn includes_subscription_canceled_during_the_period() {
    let period_start = 100 * DAY;
    let now = 200 * DAY;
    assert!(subscription_overlaps_period(
        &SubscriptionStatus::Canceled,
        10 * DAY,
        Some(150 * DAY),
        period_start,
        now,
    ));
}

#[test]
fn excludes_subscriptions_that_never_left_incomplete_status() {
    let period_start = 0;
    let now = 200 * DAY;
    assert!(!subscription_overlaps_period(
        &SubscriptionStatus::Incomplete,
        10 * DAY,
        None,
        period_start,
        now,
    ));
    assert!(!subscription_overlaps_period(
        &SubscriptionStatus::IncompleteExpired,
        10 * DAY,
        Some(11 * DAY),
        period_start,
        now,
    ));
}

#[test]
fn excludes_subscription_that_has_not_started_yet() {
    let period_start = 0;
    let now = 100 * DAY;
    assert!(!subscription_overlaps_period(
        &SubscriptionStatus::Trialing,
        200 * DAY,
        None,
        period_start,
        now,
    ));
}

#[test]
fn period_bounds_are_inclusive() {
    let status = SubscriptionStatus::Unknown("new".to_string());
    assert!(subscription_overlaps_period(&status, 20, Some(20), 20, 20));
    assert!(!subscription_overlaps_period(&status, 21, None, 20, 20));
    assert!(!subscription_overlaps_period(&status, 10, Some(19), 20, 20));
}

#[test]
fn a_wider_period_keeps_an_overlap() {
    let status = SubscriptionStatus::PastDue;
    assert!(subscription_overlaps_period(&status, 10, Some(30), 20, 25));
    assert!(subscription_overlaps_period(&status, 10, Some(30), 5, 100));
}

fn customer(id: &str, name: &str) -> Customer {
    Customer {
        id: id.to_string(),
        name: Some(name.to_string()),
        email: None,
        address: None,
    }
}

fn subscription(id: &str, start_date: i64, customer: Expandable) -> Subscription {
    Subscription {
        id: id.to_string(),
        status: SubscriptionStatus::Active,
        start_date,
        ended_at: None,
        customer,
        items: vec![],
    }
}

#[test]
fn a_subscription_is_checked_by_its_own_window() {
    let mut sub = subscription("sub_1", 10, Expandable::Id("cus_1".to_string()));
    assert!(subscription_active_between(&sub, 20, 30));
    sub.ended_at = Some(19);
    assert!(!subscription_active_between(&sub, 20, 30));
    sub.ended_at = None;
    sub.status = SubscriptionStatus::Incomplete;
    assert!(!subscription_active_between(&sub, 20, 30));
}

#[test]
fn customers_are_listed_once_in_first_seen_order() {
    let subscriptions = vec![
        subscription("sub_1", 0, Expandable::Object(customer("cus_b", "B"))),
        subscription("sub_2", 0, Expandable::Id("cus_c".to_string())),
        subscription("sub_3", 0, Expandable::Object(customer("cus_a", "A"))),
        subscription("sub_4", 0, Expandable::Object(customer("cus_b", "B again"))),
    ];
    let customers = distinct_customers(&subscriptions);
    let names: Vec<_> = customers.iter().map(|c| c.name.clone().unwrap()).collect();
    assert_eq!(names, vec!["B", "A"]);
    assert!(distinct_customers(&[]).is_empty());
}

#[test]
fn distinct_customers_stay_as_they_are() {
    let subscriptions = vec![
        subscription("sub_1", 0, object("b")),
        subscription("sub_2", 0, object("a")),
        subscription("sub_3", 0, object("b")),
    ];
    let once: Vec<_> = distinct_customers(&subscriptions)
        .into_iter()
        .map(|c| subscription("sub", 0, Expandable::Object(c)))
        .collect();
    let twice = distinct_customers(&once);
    assert_eq!(twice.iter().map(|c| c.id.as_str()).collect::<Vec<_>>(), vec!["b", "a"]);
}

fn object(id: &str) -> Expandable {
    Expandable::Object(customer(id, id))
}

#[test]
fn a_listing_asks_for_pages_until_there_are_no_more() {
    let mut listing = Listing::new(100, 200);
    let request = listing.request().unwrap();
    assert!(request.all_statuses);
    assert_eq!(request.expand, vec!["data.customer"]);
    assert_eq!(request.limit, 100);
    assert_eq!(request.starting_after, None);

    listing.receive(Ok(Page {
        data: vec![subscription("sub_1", 50, object("a")), subscription("sub_2", 300, object("b"))],
        has_more: true,
    }));
    let request = listing.request().unwrap();
    assert_eq!(request.starting_after, Some("sub_2".to_string()));

    listing.receive(Ok(Page {
        data: vec![subscription("sub_3", 200, object("c"))],
        has_more: false,
    }));
    assert!(listing.request().is_none());
    let ids: Vec<_> = listing.outcome().unwrap().into_iter().map(|s| s.id).collect();
    assert_eq!(ids, vec!["sub_1", "sub_3"]);
}

#[test]
fn an_empty_page_ends_a_listing() {
    let mut listing = Listing::new(100, 200);
    listing.receive(Ok(Page { data: vec![], has_more: true }));
    assert!(matches!(listing.state, ListingState::Complete));
    assert!(listing.outcome().unwrap().is_empty());
}

#[test]
fn a_failed_request_ends_a_listing() {
    let mut listing = Listing::new(100, 200);
    listing.receive(Err("timeout".to_string()));
    assert!(listing.request().is_none());
    assert_eq!(listing.outcome().unwrap_err(), "timeout");
}

#[test]
fn wider_windows_keep_an_overlap() {
    let before = SubscriptionStatus::Canceled;
    assert!(subscription_overlaps_period(&before, 10, Some(20), 20, 25));
    let after = SubscriptionStatus::Trialing;
    assert!(subscription_overlaps_period(&after, 5, Some(30), 15, 40));
    assert!(subscription_overlaps_period(&after, 5, None, 15, 40));
}

#[test]
fn page_cuts_do_not_matter() {
    let all = || {
        vec![
            subscription("1", 50, object("a")),
            subscription("2", 300, object("b")),
            subscription("3", 60, object("c")),
            subscription("4", 70, object("d")),
        ]
    };
    let mut found = Vec::new();
    for size in 1..=4 {
        let mut listing = Listing::new(100, 200);
        let mut left = all();
        while listing.request().is_some() {
            let rest = left.split_off(size.min(left.len()));
            listing.receive(Ok(Page { data: left, has_more: !rest.is_empty() }));
            left = rest;
        }
        assert!(matches!(listing.state, ListingState::Complete));
        let ids: Vec<_> = listing.outcome().unwrap().into_iter().map(|s| s.id).collect();
        found.push(ids);
    }
    assert_eq!(found, vec![vec!["1", "3", "4"]; 4]);
}

#[test]
fn later_subscriptions_only_add_customers() {
    let ids = |names: &[&str]| -> Vec<String> {
        let subscriptions: Vec<_> =
            names.iter().map(|name| subscription("sub", 0, object(name))).collect();
        distinct_customers(&subscriptions).into_iter().map(|c| c.id).collect()
    };
    assert_eq!(ids(&["b", "a", "b"]), vec!["b", "a"]);
    assert_eq!(ids(&["b", "a", "b", "b", "a", "b"]), vec!["b", "a"]);
    assert_eq!(ids(&["b", "a", "b", "c", "a"]), vec!["b", "a", "c"]);
}
