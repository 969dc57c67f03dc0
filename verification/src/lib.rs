//! Shipping labels and a CSV export for the customers behind a list of
//! Stripe subscriptions.

pub mod billing;
pub mod calendar;
pub mod csv;
pub mod currency;
pub mod customers;
pub mod labels;
pub mod listing;
pub mod reading;
pub mod reply;
pub mod report;
pub mod sheet;
pub mod templates;
pub mod text;
