//! The reports, from a request to its answer.

use vstd::prelude::*;
use vstd::string::*;

use crate::billing::Subscription;
use crate::calendar::{self, default_date, format_day, parse_start_date, Date};
use crate::csv::{self, render_subscriptions_csv};
use crate::customers::{self, distinct_customers};
use crate::labels::{self, render_customer_report_pages, LabelCell};
use crate::listing::{self, Listing, ListingState, Page};
use crate::reading;
use crate::reply::{HttpError, BAD_GATEWAY, BAD_REQUEST, INTERNAL_SERVER_ERROR};
use crate::text::{self, replace};

verus! {

/// The body of an answer.
#[derive(Clone, Debug)]
pub enum Body {
    Bytes(Vec<u8>),
    Text(String),
}

/// The answer to a request that succeeded.
#[derive(Clone, Debug)]
pub struct Response {
    pub content_type: String,
    pub content_disposition: String,
    pub body: Body,
}

impl Response {
    /// Whether the answer has these headers.
    pub open spec fn has_headers(
        self,
        content_type: Seq<char>,
        content_disposition: Seq<char>,
    ) -> bool {
        self.content_type@ == content_type && self.content_disposition@ == content_disposition
    }
}

/// What became of the task that renders the labels.
#[derive(Debug)]
pub enum Rendering {
    /// It made a PDF.
    Pdf(Vec<u8>),
    /// It gave up, for the given reason.
    Failed(String),
    /// It panicked.
    Panicked(String),
}

/// The index page for a day: the template with the default start date and
/// today's date filled in.
pub open spec fn index_text(template: Seq<char>, today: Date) -> Seq<char> {
    text::replaced(
        text::replaced(
            template,
            "%%DEFAULT_DATE%%"@,
            calendar::date_text(calendar::months_earlier(today, calendar::DEFAULT_MONTHS as int)),
        ),
        "%%TODAY%%"@,
        calendar::date_text(today),
    )
}

/// Fills the default start date and today's date into the template of the
/// index page.
pub fn index_page(template: &str, today: Date) -> (r: String)
    requires
        today.valid(),
        calendar::has_months_earlier(today, calendar::DEFAULT_MONTHS as int),
    ensures
        r@ == index_text(template@, today),
        !text::occurs("%%DEFAULT_DATE%%"@, r@),
        !text::occurs("%%TODAY%%"@, r@),
{
    proof {
        reveal_strlit("%%DEFAULT_DATE%%");
        reveal_strlit("%%TODAY%%");
        law_index_page_is_filled(template@, today);
    }
    match default_date(today) {
        Some(date) => {
            let dated = replace(template, "%%DEFAULT_DATE%%", format_day(date).as_str());
            replace(dated.as_str(), "%%TODAY%%", format_day(today).as_str())
        },
        None => String::new(),
    }
}

/// Begins a report: the listing of the subscriptions from the start date to
/// `now`, or the refusal of a start date that is none.
pub fn begin_report(start_date: &str, now: i64) -> (r: Result<Listing, HttpError>)
    ensures
        match calendar::parsed_date(start_date@, calendar::DATE_FORMAT@) {
            Some(date) => r matches Ok(listing) && listing.fresh(date.midnight(), now as int),
            None => r matches Err(error) && error.says(
                BAD_REQUEST,
                calendar::start_date_refusal(start_date@),
            ),
        },
        r matches Ok(listing) ==> {
            &&& listing.now == now
            &&& listing.subscriptions@.len() == 0
            &&& listing.state == (ListingState::Awaiting { starting_after: None })
            &&& calendar::parsed_date(start_date@, "%Y-%m-%d"@) matches Some(date)
            &&& listing.start_date == date.midnight()
        },
        r matches Err(error) ==> error.status == 400 && error.message@ == "invalid start_date "@
            + calendar::debug_quoted(start_date@) + ": expected YYYY-MM-DD"@,
        forall|date: Date|
            date.valid() && start_date@ == #[trigger] calendar::date_text(date) ==> (r matches Ok(
                listing,
            ) && listing.fresh(date.midnight(), now as int)),
        forall|date: Date|
            !date.valid() && 0 <= date.year <= 9999 && date.month <= 99 && date.day <= 99
                && start_date@ == #[trigger] calendar::date_text(date) ==> r is Err,
{
    match parse_start_date(start_date) {
        Ok(start) => Ok(Listing::new(start, now)),
        Err(error) => Err(error),
    }
}

/// The body of the answer where a request to Stripe failed.
pub open spec fn stripe_failure(cause: Seq<char>) -> Seq<char> {
    "Stripe API call failed: "@ + cause
}

/// The subscriptions of a listing that has ended, or the answer that says why
/// they could not be had.
pub fn listed_subscriptions(listing: Listing) -> (r: Result<Vec<Subscription>, HttpError>)
    requires
        !(listing.state is Awaiting),
    ensures
        match listing.state {
            ListingState::Failed { cause } => r matches Err(error) && error.says(
                BAD_GATEWAY,
                stripe_failure(cause@),
            ),
            _ => r == Ok::<Vec<Subscription>, HttpError>(listing.subscriptions),
        },
        listing.state matches ListingState::Failed { cause } ==> (r matches Err(error)
            && error.status == 502 && error.message@ == "Stripe API call failed: "@ + cause@),
{
    match listing.outcome() {
        Ok(subscriptions) => Ok(subscriptions),
        Err(cause) => Err(
            HttpError {
                status: BAD_GATEWAY,
                message: "Stripe API call failed: ".to_owned().concat(cause.as_str()),
            },
        ),
    }
}

/// The label sheets for a listing that has ended: one label for each distinct
/// customer of its subscriptions.
pub fn report_pages(listing: Listing) -> (r: Result<Vec<Vec<LabelCell>>, HttpError>)
    requires
        !(listing.state is Awaiting),
    ensures
        match listing.state {
            ListingState::Failed { cause } => r matches Err(error) && error.says(
                BAD_GATEWAY,
                stripe_failure(cause@),
            ),
            _ => r matches Ok(pages) && labels::sheet_text(pages@) == labels::sheet_pages(
                customers::first_seen(customers::expanded(listing.subscriptions@)),
            ),
        },
        listing.state matches ListingState::Failed { cause } ==> (r matches Err(error)
            && error.status == 502 && error.message@ == "Stripe API call failed: "@ + cause@),
        listing.state is Complete ==> (r matches Ok(pages) && forall|k: int|
            #![trigger customers::first_seen(customers::expanded(listing.subscriptions@))[k]]
            0 <= k < customers::first_seen(customers::expanded(listing.subscriptions@)).len() ==> {
                &&& k / 14 < pages@.len()
                &&& k % 14 < pages@[k / 14]@.len()
                &&& pages@[k / 14]@[k % 14]@ == labels::label_of(
                    customers::first_seen(customers::expanded(listing.subscriptions@))[k],
                )
            }),
{
    match listed_subscriptions(listing) {
        Ok(subscriptions) => {
            let found = distinct_customers(subscriptions.as_slice());
            Ok(render_customer_report_pages(found.as_slice()))
        },
        Err(error) => Err(error),
    }
}

/// The answer to a request for labels, from what became of their rendering.
pub fn report_response(rendering: Rendering) -> (r: Result<Response, HttpError>)
    ensures
        match rendering {
            Rendering::Pdf(pdf) => r matches Ok(response) && response.has_headers(
                "application/pdf"@,
                "inline; filename=\"shipping-labels.pdf\""@,
            ) && response.body == Body::Bytes(pdf),
            Rendering::Failed(cause) => r matches Err(error) && error.says(
                INTERNAL_SERVER_ERROR,
                "PDF generation failed: "@ + cause@,
            ),
            Rendering::Panicked(cause) => r matches Err(error) && error.says(
                INTERNAL_SERVER_ERROR,
                "PDF render task panicked: "@ + cause@,
            ),
        },
        r matches Ok(response) ==> response.content_type@ == "application/pdf"@
            && response.content_disposition@ == "inline; filename=\"shipping-labels.pdf\""@,
        rendering matches Rendering::Pdf(pdf) ==> (r matches Ok(response) && response.body
            == Body::Bytes(pdf)),
        r matches Err(error) ==> error.status == 500,
        rendering matches Rendering::Failed(cause) ==> (r matches Err(error) && error.message@
            == "PDF generation failed: "@ + cause@),
        rendering matches Rendering::Panicked(cause) ==> (r matches Err(error) && error.message@
            == "PDF render task panicked: "@ + cause@),
{
    match rendering {
        Rendering::Pdf(pdf) => Ok(
            Response {
                content_type: "application/pdf".to_owned(),
                content_disposition: "inline; filename=\"shipping-labels.pdf\"".to_owned(),
                body: Body::Bytes(pdf),
            },
        ),
        Rendering::Failed(cause) => Err(
            HttpError {
                status: INTERNAL_SERVER_ERROR,
                message: "PDF generation failed: ".to_owned().concat(cause.as_str()),
            },
        ),
        Rendering::Panicked(cause) => Err(
            HttpError {
                status: INTERNAL_SERVER_ERROR,
                message: "PDF render task panicked: ".to_owned().concat(cause.as_str()),
            },
        ),
    }
}

/// The answer to a request for the CSV export, for a listing that has ended.
pub fn report_csv_response(listing: Listing) -> (r: Result<Response, HttpError>)
    requires
        !(listing.state is Awaiting),
        listing.state is Complete ==> csv::amounts_fit(listing.subscriptions@),
    ensures
        match listing.state {
            ListingState::Failed { cause } => r matches Err(error) && error.says(
                BAD_GATEWAY,
                stripe_failure(cause@),
            ),
            _ => r matches Ok(response) && response.has_headers(
                "text/csv; charset=utf-8"@,
                "attachment; filename=\"subscriptions.csv\""@,
            ) && (response.body matches Body::Text(body) && body@ == csv::csv_text(
                listing.subscriptions@,
            )),
        },
        listing.state matches ListingState::Failed { cause } ==> (r matches Err(error)
            && error.status == 502 && error.message@ == "Stripe API call failed: "@ + cause@),
        r matches Ok(response) ==> response.content_type@ == "text/csv; charset=utf-8"@
            && response.content_disposition@ == "attachment; filename=\"subscriptions.csv\""@,
        listing.state is Complete ==> (r matches Ok(response)
            && response.body matches Body::Text(body) && (reading::read_file(body@) matches Some(
            lines,
        ) && lines.len() == 1 + csv::expanded_only(listing.subscriptions@).len())),
{
    match listed_subscriptions(listing) {
        Ok(subscriptions) => Ok(
            Response {
                content_type: "text/csv; charset=utf-8".to_owned(),
                content_disposition: "attachment; filename=\"subscriptions.csv\"".to_owned(),
                body: Body::Text(render_subscriptions_csv(subscriptions.as_slice())),
            },
        ),
        Err(error) => Err(error),
    }
}

/// Each customer with a label has a subscription that was active between the
/// start date and now.
pub proof fn law_labels_are_of_active_customers(
    history: Seq<Listing>,
    pages: Seq<Page>,
    start_date: int,
    now: int,
    k: int,
)
    requires
        listing::listing_run(history, pages, start_date, now),
        0 <= k < customers::first_seen(
            customers::expanded(history.last().subscriptions@),
        ).len(),
    ensures
        exists|subscription: Subscription|
            {
                &&& #[trigger] listing::all_data(pages).contains(subscription)
                &&& subscription.active_between(start_date, now)
                &&& subscription.customer.object() == Some(
                    customers::first_seen(customers::expanded(history.last().subscriptions@))[k],
                )
            },
{
    let listed = history.last().subscriptions@;
    let all = customers::expanded(listed);
    customers::law_first_seen_order(all);
    let position = customers::first_positions(all)[k];
    let i = customers::lemma_expanded_from(listed, position);
    listing::law_listed_subscriptions_are_active(history, pages, start_date, now, i);
    assert(listing::all_data(pages).contains(listed[i]));
}

/// Each customer with a subscription that was active between the start date
/// and now, and that was expanded, has a label.
pub proof fn law_active_customers_have_labels(
    history: Seq<Listing>,
    pages: Seq<Page>,
    start_date: int,
    now: int,
    subscription: Subscription,
)
    requires
        listing::listing_run(history, pages, start_date, now),
        listing::all_data(pages).contains(subscription),
        subscription.active_between(start_date, now),
        subscription.customer.object() is Some,
    ensures
        customers::known(
            customers::first_seen(customers::expanded(history.last().subscriptions@)),
            subscription.customer.object().unwrap().id@,
        ),
{
    let kept = |s: Subscription| s.active_between(start_date, now);
    let data = listing::all_data(pages);
    let listed = history.last().subscriptions@;
    listing::law_listing_keeps_the_active(history, pages, start_date, now);
    let j = choose|j: int| 0 <= j < data.len() && data[j] == subscription;
    data.lemma_filter_contains(kept, j);
    let i = choose|i: int| 0 <= i < listed.len() && listed[i] == subscription;
    let k = customers::lemma_expanded_has(listed, i);
    let id = subscription.customer.object().unwrap().id@;
    assert(customers::expanded(listed)[k].id@ == id);
    customers::law_same_ids(customers::expanded(listed), id);
}

proof fn lemma_markers_and_dates(date: Date)
    ensures
        text::disjoint("%%DEFAULT_DATE%%"@, calendar::date_text(date)),
        text::disjoint("%%TODAY%%"@, calendar::date_text(date)),
        "%%DEFAULT_DATE%%"@.len() > 0,
        "%%TODAY%%"@.len() > 0,
{
    reveal_strlit("%%DEFAULT_DATE%%");
    reveal_strlit("%%TODAY%%");
    calendar::law_characters_of_a_date(date);
}

/// Whatever the template, the index page holds no marker, and the default start
/// date is a date before today.
pub proof fn law_index_page_is_filled(template: Seq<char>, today: Date)
    requires
        today.valid(),
        calendar::has_months_earlier(today, calendar::DEFAULT_MONTHS as int),
    ensures
        !text::occurs("%%DEFAULT_DATE%%"@, index_text(template, today)),
        !text::occurs("%%TODAY%%"@, index_text(template, today)),
        calendar::months_earlier(today, calendar::DEFAULT_MONTHS as int).valid(),
        calendar::months_earlier(today, calendar::DEFAULT_MONTHS as int).before(today),
{
    let start = calendar::months_earlier(today, calendar::DEFAULT_MONTHS as int);
    calendar::law_months_earlier(today, calendar::DEFAULT_MONTHS as int);
    calendar::law_characters_of_a_date(start);
    calendar::law_characters_of_a_date(today);
    lemma_markers_and_dates(start);
    lemma_markers_and_dates(today);
    let first = "%%DEFAULT_DATE%%"@;
    let second = "%%TODAY%%"@;
    let dated = text::replaced(template, first, calendar::date_text(start));
    text::law_replaced_leaves_no_marker(template, first, calendar::date_text(start));
    text::law_replaced_leaves_no_marker(dated, second, calendar::date_text(today));
    if text::occurs(first, index_text(template, today)) {
        text::law_replaced_brings_nothing_else(dated, second, calendar::date_text(today), first);
    }
}

proof fn lemma_no_percent(before: Seq<char>, marker: Seq<char>, after: Seq<char>, from: int)
    requires
        marker.len() > 2,
        marker[0] == '%',
        marker[1] == '%',
        marker[2] != '%',
        0 <= from < before.len(),
        !before.contains('%'),
    ensures
        !text::stands_at(marker, before + marker + after, from),
{
    let whole = before + marker + after;
    if text::stands_at(marker, whole, from) {
        assert(whole.subrange(from, from + marker.len())[0] == whole[from]);
        assert(whole[from] == before[from]);
        assert(before.contains(before[from]));
    }
}

proof fn lemma_no_marker(text: Seq<char>, marker: Seq<char>)
    requires
        marker.len() > 0,
        marker[0] == '%',
        !text.contains('%'),
    ensures
        !text::occurs(marker, text),
{
    assert forall|from: int| !text::stands_at(marker, text, from) by {
        if text::stands_at(marker, text, from) {
            assert(text.subrange(from, from + marker.len())[0] == text[from]);
            assert(text.contains(text[from]));
        }
    }
}

/// The first marker of a template gives way to the date two months ago, on the
/// same day of the month or the last of a shorter one, the second to today's,
/// and all else stays, whatever stands around them without a percent sign.
pub proof fn law_index_page_shows_its_dates(
    head: Seq<char>,
    middle: Seq<char>,
    tail: Seq<char>,
    today: Date,
    start: Date,
)
    requires
        today.valid(),
        start.valid(),
        start.year * 12 + start.month + 2 == today.year * 12 + today.month,
        start.day == today.day || start.day < today.day && start.day == calendar::month_length(
            start.year as int,
            start.month as int,
        ),
        !head.contains('%'),
        !middle.contains('%'),
        !tail.contains('%'),
    ensures
        index_text(head + "%%DEFAULT_DATE%%"@ + (middle + "%%TODAY%%"@ + tail), today) == head
            + calendar::date_text(start) + middle + calendar::date_text(today) + tail,
{
    reveal_strlit("%%DEFAULT_DATE%%");
    reveal_strlit("%%TODAY%%");
    let first = "%%DEFAULT_DATE%%"@;
    let second = "%%TODAY%%"@;
    let months = calendar::DEFAULT_MONTHS as int;
    let found = calendar::months_earlier(today, months);
    assert(calendar::has_months_earlier(today, months));
    calendar::law_months_earlier(today, months);
    assert(found.year == start.year && found.month == start.month);
    assert(found == start);
    let shown = calendar::date_text(start);
    let now = calendar::date_text(today);
    calendar::law_characters_of_a_date(start);
    calendar::law_characters_of_a_date(today);
    let rest = middle + second + tail;
    assert forall|from: int| 0 <= from < head.len() implies !text::stands_at(
        first,
        head + first + rest,
        from,
    ) by {
        lemma_no_percent(head, first, rest, from);
    }
    text::law_replaced_marker_by_marker(head, first, shown, rest);
    assert(!text::occurs(first, rest)) by {
        assert forall|from: int| !text::stands_at(first, rest, from) by {
            if text::stands_at(first, rest, from) {
                assert(rest.subrange(from, from + first.len())[2] == rest[from + 2]);
                assert(rest.subrange(from, from + first.len())[0] == rest[from]);
                assert(rest.subrange(from, from + first.len())[3] == rest[from + 3]);
                let at = from - middle.len();
                if from < middle.len() {
                    assert(middle.contains(middle[from]));
                } else if at < second.len() {
                    assert(rest[from] == second[at]);
                    if at == 0 {
                        assert(rest[from + 2] == second[2]);
                    } else if at == 1 {
                        assert(rest[from + 2] == second[3]);
                    } else {
                        assert(rest.subrange(from, from + first.len())[1] == rest[from + 1]);
                        if at == second.len() - 2 {
                            if tail.len() > 0 {
                                assert(rest[from + 2] == tail[0]);
                                assert(first[2] == 'D');
                                assert(rest.subrange(from, from + first.len())[14] == rest[from
                                    + 14]);
                                assert(rest[from + 14] == tail[12]);
                                assert(tail.contains(tail[12]));
                            }
                        } else {
                            assert(at == second.len() - 1);
                            assert(rest[from + 1] == tail[0]);
                            assert(tail.contains(tail[0]));
                        }
                    }
                } else {
                    let i = at - second.len();
                    assert(rest[from] == tail[i]);
                    assert(tail.contains(tail[i]));
                }
            }
        }
    }
    text::law_replaced_without_marker(rest, first, shown);
    let dated = head + shown + rest;
    let before = head + shown + middle;
    assert(dated =~= before + second + tail);
    assert(!before.contains('%')) by {
        if before.contains('%') {
            let i = choose|i: int| 0 <= i < before.len() && before[i] == '%';
            if i < head.len() {
                assert(head.contains(head[i]));
            } else if i < head.len() + shown.len() {
                assert(before[i] == shown[i - head.len()]);
            } else {
                assert(before[i] == middle[i - head.len() - shown.len()]);
                assert(middle.contains(middle[i - head.len() - shown.len()]));
            }
        }
    }
    assert forall|from: int| 0 <= from < before.len() implies !text::stands_at(
        second,
        before + second + tail,
        from,
    ) by {
        lemma_no_percent(before, second, tail, from);
    }
    text::law_replaced_marker_by_marker(before, second, now, tail);
    lemma_no_marker(tail, second);
    text::law_replaced_without_marker(tail, second, now);
    assert(before + now + tail =~= head + shown + middle + now + tail);
}

/// In any template every marker of the first kind gives way to the date two
/// months ago, on the same day of the month or the last of a shorter one, and
/// then every one of the second to today's.
pub proof fn law_index_page_replaces_every_marker(template: Seq<char>, today: Date, start: Date)
    requires
        today.valid(),
        start.valid(),
        start.year * 12 + start.month + 2 == today.year * 12 + today.month,
        start.day == today.day || start.day < today.day && start.day == calendar::month_length(
            start.year as int,
            start.month as int,
        ),
    ensures
        index_text(template, today) == text::replaced(
            text::replaced(template, "%%DEFAULT_DATE%%"@, calendar::date_text(start)),
            "%%TODAY%%"@,
            calendar::date_text(today),
        ),
{
    let months = calendar::DEFAULT_MONTHS as int;
    let found = calendar::months_earlier(today, months);
    assert(calendar::has_months_earlier(today, months));
    calendar::law_months_earlier(today, months);
    assert(found.year == start.year && found.month == start.month);
    assert(found == start);
}

} // verus!
