//! Subscriptions and their customers, with what the reports read of them.

use vstd::prelude::*;

verus! {

/// A postal address; any part may be absent.
#[derive(Debug)]
pub struct Address {
    pub city: Option<String>,
    pub country: Option<String>,
    pub line1: Option<String>,
    pub line2: Option<String>,
    pub postal_code: Option<String>,
    pub state: Option<String>,
}

impl Clone for Address {
    fn clone(&self) -> (r: Self)
        ensures
            r == *self,
    {
        Address {
            city: self.city.clone(),
            country: self.country.clone(),
            line1: self.line1.clone(),
            line2: self.line2.clone(),
            postal_code: self.postal_code.clone(),
            state: self.state.clone(),
        }
    }
}

/// A customer.
#[derive(Debug)]
pub struct Customer {
    pub id: String,
    pub name: Option<String>,
    pub email: Option<String>,
    pub address: Option<Address>,
}

impl Clone for Customer {
    fn clone(&self) -> (r: Self)
        ensures
            r == *self,
    {
        Customer {
            id: self.id.clone(),
            name: self.name.clone(),
            email: self.email.clone(),
            address: self.address.clone(),
        }
    }
}

/// A customer as a subscription refers to it: by its id alone, or expanded.
#[derive(Debug)]
pub enum Expandable {
    Id(String),
    Object(Customer),
}

impl Expandable {
    /// The customer, where it was expanded.
    pub open spec fn object(self) -> Option<Customer> {
        match self {
            Expandable::Id(_) => None,
            Expandable::Object(customer) => Some(customer),
        }
    }

    /// The customer, where it was expanded.
    pub fn as_object(&self) -> (r: Option<&Customer>)
        ensures
            match r {
                Some(customer) => self.object() == Some(*customer),
                None => self.object() is None,
            },
            match *self {
                Expandable::Id(_) => r is None,
                Expandable::Object(customer) => r == Some(&customer),
            },
    {
        match self {
            Expandable::Id(_) => None,
            Expandable::Object(customer) => Some(customer),
        }
    }
}

/// The state that a subscription is in.
#[derive(Debug)]
pub enum SubscriptionStatus {
    Active,
    Canceled,
    Incomplete,
    IncompleteExpired,
    PastDue,
    Paused,
    Trialing,
    Unpaid,
    /// A state that is not known here.
    Unknown(String),
}

impl SubscriptionStatus {
    /// Whether a subscription in this state has ever had a paying period.
    pub open spec fn started(self) -> bool {
        !(self is Incomplete) && !(self is IncompleteExpired)
    }
}

/// A line of a subscription: the currency by its lower-case ISO code, what one
/// unit costs per cycle, in the smallest unit of that currency, and how many
/// units there are.
#[derive(Debug)]
pub struct SubscriptionItem {
    pub currency: String,
    pub unit_amount: Option<i64>,
    pub quantity: Option<u64>,
}

/// A subscription. Times are Unix timestamps.
#[derive(Debug)]
pub struct Subscription {
    pub id: String,
    pub status: SubscriptionStatus,
    pub start_date: i64,
    pub ended_at: Option<i64>,
    pub customer: Expandable,
    pub items: Vec<SubscriptionItem>,
}

/// A subscription that started has its window, from `sub_start` to
/// `sub_ended_at` or without end, reach into the period.
pub open spec fn overlaps_period(
    status: SubscriptionStatus,
    sub_start: int,
    sub_ended_at: Option<i64>,
    period_start: int,
    now: int,
) -> bool {
    &&& status.started()
    &&& sub_start <= now
    &&& (sub_ended_at matches Some(ended_at) ==> ended_at >= period_start)
}

/// Overlap check between a subscription's window `[sub_start, sub_ended_at]`
/// (open-ended without `sub_ended_at`) and the period `[period_start, now]`.
pub fn subscription_overlaps_period(
    status: &SubscriptionStatus,
    sub_start: i64,
    sub_ended_at: Option<i64>,
    period_start: i64,
    now: i64,
) -> (r: bool)
    ensures
        r == overlaps_period(
            *status,
            sub_start as int,
            sub_ended_at,
            period_start as int,
            now as int,
        ),
        r == (!(*status is Incomplete) && !(*status is IncompleteExpired) && sub_start <= now && (
        sub_ended_at matches Some(ended_at) ==> period_start <= ended_at)),
{
    match status {
        SubscriptionStatus::Incomplete | SubscriptionStatus::IncompleteExpired => {
            return false;
        },
        _ => {},
    }
    let not_ended_before: bool = match sub_ended_at {
        Some(ended_at) => ended_at >= period_start,
        None => true,
    };
    sub_start <= now && not_ended_before
}

impl Subscription {
    /// Active at some point of `[period_start, now]`.
    pub open spec fn active_between(self, period_start: int, now: int) -> bool {
        overlaps_period(self.status, self.start_date as int, self.ended_at, period_start, now)
    }
}

/// Whether a subscription was active at some point of `[period_start, now]`:
/// it started, and has not ended or ended on or after `period_start`.
pub fn subscription_active_between(
    subscription: &Subscription,
    period_start: i64,
    now: i64,
) -> (r: bool)
    ensures
        r == subscription.active_between(period_start as int, now as int),
        r == (!(subscription.status is Incomplete) && !(subscription.status is IncompleteExpired)
            && subscription.start_date <= now && (subscription.ended_at matches Some(ended_at)
            ==> period_start <= ended_at)),
{
    subscription_overlaps_period(
        &subscription.status,
        subscription.start_date,
        subscription.ended_at,
        period_start,
        now,
    )
}

/// An instant of the period at which the subscription's window is open.
pub open spec fn common_instant(
    sub_start: int,
    sub_ended_at: Option<i64>,
    period_start: int,
    now: int,
    instant: int,
) -> bool {
    &&& period_start <= instant <= now
    &&& sub_start <= instant
    &&& (sub_ended_at matches Some(ended_at) ==> instant <= ended_at)
}

/// A started subscription overlaps a period exactly if some instant lies in
/// both, for a period that does not end before it starts and a subscription
/// that did not end before it started.
pub proof fn law_overlap_is_a_common_instant(
    status: SubscriptionStatus,
    sub_start: int,
    sub_ended_at: Option<i64>,
    period_start: int,
    now: int,
)
    requires
        period_start <= now,
        sub_ended_at matches Some(ended_at) ==> sub_start <= ended_at,
    ensures
        overlaps_period(status, sub_start, sub_ended_at, period_start, now) <==> status.started()
            && exists|instant: int|
            common_instant(sub_start, sub_ended_at, period_start, now, instant),
{
    if overlaps_period(status, sub_start, sub_ended_at, period_start, now) {
        let instant = if sub_start <= period_start {
            period_start
        } else {
            sub_start
        };
        assert(common_instant(sub_start, sub_ended_at, period_start, now, instant));
    }
}

/// Widening either window keeps an overlap, and of the state it matters only
/// whether the subscription started.
pub proof fn law_wider_windows_keep_overlaps(
    status: SubscriptionStatus,
    sub_start: int,
    sub_ended_at: Option<i64>,
    period_start: int,
    now: int,
    other_status: SubscriptionStatus,
    earlier_sub_start: int,
    later_ended_at: Option<i64>,
    earlier_period_start: int,
    later_now: int,
)
    requires
        overlaps_period(status, sub_start, sub_ended_at, period_start, now),
        other_status.started(),
        earlier_sub_start <= sub_start,
        later_ended_at matches Some(later) ==> (sub_ended_at matches Some(ended_at) && ended_at
            <= later),
        earlier_period_start <= period_start,
        now <= later_now,
    ensures
        overlaps_period(
            other_status,
            earlier_sub_start,
            later_ended_at,
            earlier_period_start,
            later_now,
        ),
{
}

/// A subscription that never left the incomplete states overlaps no period.
pub proof fn law_incomplete_never_overlaps(
    sub_start: int,
    sub_ended_at: Option<i64>,
    period_start: int,
    now: int,
)
    ensures
        !overlaps_period(
            SubscriptionStatus::Incomplete,
            sub_start,
            sub_ended_at,
            period_start,
            now,
        ),
        !overlaps_period(
            SubscriptionStatus::IncompleteExpired,
            sub_start,
            sub_ended_at,
            period_start,
            now,
        ),
{
}

/// A customer is at hand exactly if the subscription refers to it expanded, and
/// is then the one referred to.
pub proof fn law_object_is_the_expanded_customer(reference: Expandable, customer: Customer)
    ensures
        reference.object() == Some(customer) <==> reference == Expandable::Object(customer),
        reference.object() is None <==> reference is Id,
{
}

/// A subscription counts as active in a period exactly if it is in a state other
/// than the two incomplete ones and some instant lies both in the period and
/// between the subscription's start and its end, for a period that does not end
/// before it starts and a subscription that did not end before it started: any
/// such `instant` makes it active, and of an active one `shared` is such an
/// instant.
pub proof fn law_active_is_a_shared_instant(
    subscription: Subscription,
    period_start: int,
    now: int,
    instant: int,
) -> (shared: int)
    requires
        period_start <= now,
        subscription.ended_at matches Some(ended_at) ==> subscription.start_date <= ended_at,
    ensures
        ({
            let counts = match subscription.status {
                SubscriptionStatus::Active => true,
                SubscriptionStatus::Canceled => true,
                SubscriptionStatus::PastDue => true,
                SubscriptionStatus::Paused => true,
                SubscriptionStatus::Trialing => true,
                SubscriptionStatus::Unpaid => true,
                SubscriptionStatus::Unknown(_) => true,
                SubscriptionStatus::Incomplete => false,
                SubscriptionStatus::IncompleteExpired => false,
            };
            &&& counts && period_start <= instant <= now && subscription.start_date <= instant && (
            subscription.ended_at matches Some(ended_at) ==> instant <= ended_at)
                ==> subscription.active_between(period_start, now)
            &&& subscription.active_between(period_start, now) ==> counts && period_start <= shared
                <= now && subscription.start_date <= shared && (
            subscription.ended_at matches Some(ended_at) ==> shared <= ended_at)
        }),
{
    if subscription.start_date <= period_start {
        period_start
    } else {
        subscription.start_date as int
    }
}

/// Subscriptions that differ only in their state are active in the same periods,
/// whatever the two states are, unless one of them is incomplete.
pub proof fn law_states_count_alike(
    subscription: Subscription,
    other: Subscription,
    period_start: int,
    now: int,
)
    requires
        subscription.start_date == other.start_date,
        subscription.ended_at == other.ended_at,
        !(subscription.status is Incomplete) && !(subscription.status is IncompleteExpired),
        !(other.status is Incomplete) && !(other.status is IncompleteExpired),
    ensures
        subscription.active_between(period_start, now) <==> other.active_between(period_start, now),
{
}

} // verus!
