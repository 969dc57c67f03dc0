//! Collecting the subscriptions of a period, page by page.

use vstd::prelude::*;
use vstd::string::*;

use crate::billing::{subscription_active_between, Subscription};

verus! {

/// The number of subscriptions that a page is asked to hold.
pub const PAGE_LIMIT: i64 = 100;

/// The part of each listed subscription that is to be expanded.
pub const EXPANDED: &'static str = "data.customer";

/// A page of subscriptions, and whether there are more after it.
#[derive(Debug)]
pub struct Page {
    pub data: Vec<Subscription>,
    pub has_more: bool,
}

/// The request for one page: subscriptions in every state, at most `limit` of
/// them, with `expand` expanded, from the one after the subscription
/// `starting_after` on.
#[derive(Debug)]
pub struct PageRequest {
    pub all_statuses: bool,
    pub expand: Vec<String>,
    pub limit: i64,
    pub starting_after: Option<String>,
}

/// What a listing waits for.
#[derive(Debug)]
pub enum ListingState {
    /// The page after the subscription `starting_after`, or the first page.
    Awaiting { starting_after: Option<String> },
    /// Nothing: all pages have been received.
    Complete,
    /// Nothing: a request failed.
    Failed { cause: String },
}

/// The subscriptions that were active between `start_date` and `now`, as far
/// as they have been received.
#[derive(Debug)]
pub struct Listing {
    pub start_date: i64,
    pub now: i64,
    pub subscriptions: Vec<Subscription>,
    pub state: ListingState,
}

/// The subscriptions of a list that were active in a period, in order.
pub open spec fn active_only(
    subscriptions: Seq<Subscription>,
    start_date: int,
    now: int,
) -> Seq<Subscription> {
    subscriptions.filter(|subscription: Subscription| subscription.active_between(start_date, now))
}

/// What a listing waits for once a page has been received: the page after its
/// last subscription, if there are more and it is not empty.
pub open spec fn awaited_after(page: Page) -> ListingState {
    if page.has_more && page.data@.len() > 0 {
        ListingState::Awaiting { starting_after: Some(page.data@.last().id) }
    } else {
        ListingState::Complete
    }
}

/// A step of a listing: a page adds its active subscriptions, and a failure
/// ends the listing.
pub open spec fn received(before: Listing, reply: Result<Page, String>, after: Listing) -> bool {
    &&& after.start_date == before.start_date
    &&& after.now == before.now
    &&& match reply {
        Ok(page) => {
            &&& after.subscriptions@ == before.subscriptions@ + active_only(
                page.data@,
                before.start_date as int,
                before.now as int,
            )
            &&& after.state == awaited_after(page)
        },
        Err(cause) => {
            &&& after.subscriptions@ == before.subscriptions@
            &&& after.state == ListingState::Failed { cause }
        },
    }
}

impl Listing {
    /// Nothing has been received yet, and the first page is awaited.
    pub open spec fn fresh(self, start_date: int, now: int) -> bool {
        &&& self.start_date == start_date
        &&& self.now == now
        &&& self.subscriptions@.len() == 0
        &&& self.state == ListingState::Awaiting { starting_after: None }
    }

    /// A listing that waits for the first page.
    pub fn new(start_date: i64, now: i64) -> (r: Self)
        ensures
            r.fresh(start_date as int, now as int),
            r.start_date == start_date && r.now == now && r.subscriptions@.len() == 0,
            r.state == (ListingState::Awaiting { starting_after: None }),
    {
        Listing {
            start_date,
            now,
            subscriptions: Vec::new(),
            state: ListingState::Awaiting { starting_after: None },
        }
    }

    /// The request to send next, if the listing waits for a page.
    pub fn request(&self) -> (r: Option<PageRequest>)
        ensures
            match self.state {
                ListingState::Awaiting { starting_after } => {
                    &&& r matches Some(request)
                    &&& request.all_statuses
                    &&& request.expand@.len() == 1
                    &&& request.expand@[0]@ == EXPANDED@
                    &&& request.expand@[0]@ == "data.customer"@
                    &&& request.limit == PAGE_LIMIT
                    &&& request.limit == 100
                    &&& request.starting_after == starting_after
                },
                _ => r is None,
            },
    {
        match &self.state {
            ListingState::Awaiting { starting_after } => {
                let mut expand: Vec<String> = Vec::new();
                expand.push(EXPANDED.to_owned());
                Some(
                    PageRequest {
                        all_statuses: true,
                        expand,
                        limit: PAGE_LIMIT,
                        starting_after: starting_after.clone(),
                    },
                )
            },
            _ => None,
        }
    }

    /// Takes the reply to the request that was sent.
    pub fn receive(&mut self, reply: Result<Page, String>)
        requires
            old(self).state is Awaiting,
        ensures
            received(*old(self), reply, *final(self)),
            final(self).start_date == old(self).start_date && final(self).now == old(self).now,
            reply matches Err(cause) ==> final(self).subscriptions@ == old(self).subscriptions@
                && final(self).state == (ListingState::Failed { cause }),
            reply matches Ok(page) ==> {
                &&& old(self).subscriptions@.is_prefix_of(final(self).subscriptions@)
                &&& forall|i: int|
                    0 <= i < page.data@.len() && !((#[trigger] page.data@[i]).status is Incomplete)
                        && !(page.data@[i].status is IncompleteExpired)
                        && page.data@[i].start_date <= old(self).now && (
                    page.data@[i].ended_at matches Some(ended_at) ==> old(self).start_date
                        <= ended_at) ==> final(self).subscriptions@.contains(page.data@[i])
            },
            reply matches Ok(page) ==> final(self).state == (if page.has_more && page.data@.len()
                > 0 {
                ListingState::Awaiting { starting_after: Some(page.data@.last().id) }
            } else {
                ListingState::Complete
            }),
    {
        match reply {
            Err(cause) => {
                self.state = ListingState::Failed { cause };
            },
            Ok(page) => {
                let count = page.data.len();
                self.state = if page.has_more && count > 0 {
                    ListingState::Awaiting { starting_after: Some(page.data[count - 1].id.clone()) }
                } else {
                    ListingState::Complete
                };
                let ghost data = page.data@;
                let ghost kept = |subscription: Subscription|
                    subscription.active_between(self.start_date as int, self.now as int);
                let ghost before = *self;
                for subscription in it: page.data
                    invariant
                        it.seq() == data,
                        kept == (|subscription: Subscription|
                            subscription.active_between(self.start_date as int, self.now as int)),
                        self.start_date == before.start_date,
                        self.now == before.now,
                        self.state == before.state,
                        self.subscriptions@ == before.subscriptions@ + data.take(
                            it.index(),
                        ).filter(kept),
                {
                    proof {
                        assert(data.take(it.index() + 1).drop_last() =~= data.take(it.index()));
                        reveal(Seq::filter);
                    }
                    if subscription_active_between(&subscription, self.start_date, self.now) {
                        self.subscriptions.push(subscription);
                    }
                }
                assert(data.take(data.len() as int) =~= data);
                proof {
                    assert(before.subscriptions@ =~= self.subscriptions@.subrange(
                        0,
                        before.subscriptions@.len() as int,
                    ));
                    let start = self.start_date as int;
                    let now = self.now as int;
                    let added = data.filter(kept);
                    assert forall|i: int|
                        0 <= i < data.len() && (#[trigger] data[i]).active_between(
                            start,
                            now,
                        ) implies self.subscriptions@.contains(data[i]) by {
                        data.lemma_filter_contains(kept, i);
                        let k = choose|k: int| 0 <= k < added.len() && added[k] == data[i];
                        assert(self.subscriptions@[before.subscriptions@.len() + k] == data[i]);
                    }
                }
            },
        }
    }

    /// The collected subscriptions, or why a request failed.
    pub fn outcome(self) -> (r: Result<Vec<Subscription>, String>)
        requires
            !(self.state is Awaiting),
        ensures
            match self.state {
                ListingState::Failed { cause } => r == Err::<Vec<Subscription>, String>(cause),
                _ => r == Ok::<Vec<Subscription>, String>(self.subscriptions),
            },
    {
        match self.state {
            ListingState::Failed { cause } => Err(cause),
            _ => Ok(self.subscriptions),
        }
    }
}

/// The subscriptions of all pages, in order.
pub open spec fn all_data(pages: Seq<Page>) -> Seq<Subscription>
    decreases pages.len(),
{
    if pages.len() == 0 {
        seq![]
    } else {
        all_data(pages.drop_last()) + pages.last().data@
    }
}

/// The listing waits for a page and receives the page at `i`.
pub open spec fn listing_step(history: Seq<Listing>, pages: Seq<Page>, i: int) -> bool {
    &&& history[i].state is Awaiting
    &&& received(history[i], Ok(pages[i]), history[i + 1])
}

/// The listings before and after each of the pages that one listing received.
pub open spec fn listing_run(
    history: Seq<Listing>,
    pages: Seq<Page>,
    start_date: int,
    now: int,
) -> bool {
    &&& history.len() == pages.len() + 1
    &&& history[0].fresh(start_date, now)
    &&& forall|i: int| 0 <= i < pages.len() ==> #[trigger] listing_step(history, pages, i)
}

/// A listing holds exactly the active subscriptions of the pages received, in
/// their order: none is dropped, added or repeated.
pub proof fn law_listing_keeps_the_active(
    history: Seq<Listing>,
    pages: Seq<Page>,
    start_date: int,
    now: int,
)
    requires
        listing_run(history, pages, start_date, now),
    ensures
        history.last().subscriptions@ == active_only(all_data(pages), start_date, now),
        history.last().start_date == start_date,
        history.last().now == now,
    decreases pages.len(),
{
    let kept = |subscription: Subscription| subscription.active_between(start_date, now);
    reveal(Seq::filter);
    if pages.len() == 0 {
        assert(all_data(pages).filter(kept) =~= seq![]);
    } else {
        let before = pages.drop_last();
        let past = history.drop_last();
        assert forall|i: int| 0 <= i < before.len() implies #[trigger] listing_step(
            past,
            before,
            i,
        ) by {
            assert(listing_step(history, pages, i));
        }
        law_listing_keeps_the_active(past, before, start_date, now);
        let last = pages[pages.len() - 1];
        assert(listing_step(history, pages, pages.len() - 1));
        Seq::filter_distributes_over_add(all_data(before), last.data@, kept);
    }
}

/// Each subscription of a listing was active in its period.
pub proof fn law_listed_subscriptions_are_active(
    history: Seq<Listing>,
    pages: Seq<Page>,
    start_date: int,
    now: int,
    i: int,
)
    requires
        listing_run(history, pages, start_date, now),
        0 <= i < history.last().subscriptions@.len(),
    ensures
        history.last().subscriptions@[i].active_between(start_date, now),
        all_data(pages).contains(history.last().subscriptions@[i]),
{
    law_listing_keeps_the_active(history, pages, start_date, now);
    let kept = |subscription: Subscription| subscription.active_between(start_date, now);
    let listed = all_data(pages).filter(kept);
    assert(listed.contains(listed[i]));
    all_data(pages).lemma_filter_contains_rev(kept, listed[i]);
    all_data(pages).lemma_filter_pred(kept, i);
}

/// Each page but the last says that there are more and is followed by the
/// page after its last subscription; the listing is complete exactly if the
/// last page is empty or says that there are no more.
pub proof fn law_pages_follow_each_other(
    history: Seq<Listing>,
    pages: Seq<Page>,
    start_date: int,
    now: int,
)
    requires
        listing_run(history, pages, start_date, now),
        pages.len() > 0,
    ensures
        forall|i: int|
            #![trigger pages[i]]
            0 <= i < pages.len() - 1 ==> {
                &&& pages[i].has_more
                &&& pages[i].data@.len() > 0
                &&& history[i + 1].state == (ListingState::Awaiting {
                    starting_after: Some(pages[i].data@.last().id),
                })
            },
        history.last().state is Complete <==> !pages.last().has_more || pages.last().data@.len()
            == 0,
{
    assert forall|i: int| #![trigger pages[i]] 0 <= i < pages.len() - 1 implies {
        &&& pages[i].has_more
        &&& pages[i].data@.len() > 0
        &&& history[i + 1].state == (ListingState::Awaiting {
            starting_after: Some(pages[i].data@.last().id),
        })
    } by {
        assert(listing_step(history, pages, i));
        assert(listing_step(history, pages, i + 1));
    }
    assert(listing_step(history, pages, pages.len() - 1));
}

/// How the subscriptions are cut into pages does not matter: two listings that
/// are served the same subscriptions in the same order to the end are both
/// complete and hold the same.
pub proof fn law_page_cuts_do_not_matter(
    history: Seq<Listing>,
    pages: Seq<Page>,
    other_history: Seq<Listing>,
    other_pages: Seq<Page>,
    start_date: int,
    now: int,
)
    requires
        listing_run(history, pages, start_date, now),
        listing_run(other_history, other_pages, start_date, now),
        pages.len() > 0 && !pages.last().has_more,
        other_pages.len() > 0 && !other_pages.last().has_more,
        all_data(pages) == all_data(other_pages),
    ensures
        history.last().state is Complete,
        other_history.last().state is Complete,
        history.last().subscriptions@ == other_history.last().subscriptions@,
{
    law_pages_follow_each_other(history, pages, start_date, now);
    law_pages_follow_each_other(other_history, other_pages, start_date, now);
    law_listing_keeps_the_active(history, pages, start_date, now);
    law_listing_keeps_the_active(other_history, other_pages, start_date, now);
}

proof fn lemma_kept_positions(data: Seq<Subscription>, start_date: int, now: int) -> (positions:
    Seq<int>)
    ensures
        positions.len() == active_only(data, start_date, now).len(),
        forall|k: int|
            #![trigger positions[k]]
            0 <= k < positions.len() ==> 0 <= positions[k] < data.len() && active_only(
                data,
                start_date,
                now,
            )[k] == data[positions[k]] && data[positions[k]].active_between(start_date, now),
        forall|k: int, l: int| 0 <= k < l < positions.len() ==> positions[k] < positions[l],
        forall|i: int|
            0 <= i < data.len() && (#[trigger] data[i]).active_between(start_date, now)
                ==> positions.contains(i),
    decreases data.len(),
{
    reveal(Seq::filter);
    if data.len() == 0 {
        seq![]
    } else {
        let front = data.drop_last();
        let before = lemma_kept_positions(front, start_date, now);
        let last = data.len() - 1;
        let positions = if data.last().active_between(start_date, now) {
            before.push(last)
        } else {
            before
        };
        assert forall|i: int|
            0 <= i < data.len() && (#[trigger] data[i]).active_between(
                start_date,
                now,
            ) implies positions.contains(i) by {
            if i < last {
                assert(front[i].active_between(start_date, now));
                let k = choose|k: int| 0 <= k < before.len() && before[k] == i;
                assert(positions[k] == i);
            } else {
                assert(positions[positions.len() - 1] == i);
            }
        }
        positions
    }
}

/// A listing is a selection from the subscriptions of the pages: there are
/// places in them, from first to last, at which its subscriptions stand, and
/// these are exactly the places of the subscriptions that are not incomplete,
/// started by the end of the period and did not end before it.
pub proof fn law_listing_is_a_selection(
    history: Seq<Listing>,
    pages: Seq<Page>,
    start_date: int,
    now: int,
) -> (positions: Seq<int>)
    requires
        listing_run(history, pages, start_date, now),
    ensures
        positions.len() == history.last().subscriptions@.len(),
        forall|k: int|
            #![trigger positions[k]]
            0 <= k < positions.len() ==> 0 <= positions[k] < all_data(pages).len()
                && history.last().subscriptions@[k] == all_data(pages)[positions[k]],
        forall|k: int, l: int| 0 <= k < l < positions.len() ==> positions[k] < positions[l],
        forall|i: int|
            0 <= i < all_data(pages).len() ==> (positions.contains(i) <==> ({
                let subscription = #[trigger] all_data(pages)[i];
                &&& !(subscription.status is Incomplete)
                &&& !(subscription.status is IncompleteExpired)
                &&& subscription.start_date <= now
                &&& (subscription.ended_at matches Some(ended_at) ==> start_date <= ended_at)
            })),
{
    law_listing_keeps_the_active(history, pages, start_date, now);
    let positions = lemma_kept_positions(all_data(pages), start_date, now);
    assert forall|i: int| 0 <= i < all_data(pages).len() implies (positions.contains(i) <==> ({
        let subscription = #[trigger] all_data(pages)[i];
        &&& !(subscription.status is Incomplete)
        &&& !(subscription.status is IncompleteExpired)
        &&& subscription.start_date <= now
        &&& (subscription.ended_at matches Some(ended_at) ==> start_date <= ended_at)
    })) by {
        if positions.contains(i) {
            let k = choose|k: int| 0 <= k < positions.len() && positions[k] == i;
            assert(all_data(pages)[positions[k]].active_between(start_date, now));
        }
    }
    positions
}

/// After each page a listing waits for the page after its last subscription
/// exactly if it is not empty and says that there are more; else it is complete.
/// It never fails while pages are received, and keeps its period.
pub proof fn law_each_page_decides_what_follows(
    history: Seq<Listing>,
    pages: Seq<Page>,
    start_date: int,
    now: int,
    i: int,
)
    requires
        listing_run(history, pages, start_date, now),
        0 <= i < pages.len(),
    ensures
        pages[i].has_more && pages[i].data@.len() > 0 ==> history[i + 1].state == (
        ListingState::Awaiting { starting_after: Some(pages[i].data@[pages[i].data@.len() - 1].id) }),
        !pages[i].has_more || pages[i].data@.len() == 0 ==> history[i + 1].state is Complete,
        history[i + 1].start_date == history[i].start_date,
        history[i + 1].now == history[i].now,
{
    assert(listing_step(history, pages, i));
}

} // verus!
