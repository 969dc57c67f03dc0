# stripe-ticket-printer

A web service that prints shipping labels for the customers of a Stripe
account: those who had a subscription active at any point between a start date
and now. The same subscriptions can be exported as CSV.

- `GET /` is a form for the start date, which defaults to two months ago.
- `GET /report?start_date=YYYY-MM-DD` is an A4 sheet of labels as a PDF (Avery
  L7163-compatible, 14 labels to a sheet).
- `GET /report/csv?start_date=YYYY-MM-DD` is the CSV export.
- `GET /healthz` is a health check.

## Layout

`src/` is the library, verified with Verus:

- `text`, `calendar`: characters, decimal numbers, dates and timestamps
- `billing`, `customers`: subscriptions, and the customers behind them
- `listing`: collecting the subscriptions page by page
- `labels`, `sheet`: the labels, and their PDF through Typst
- `currency`: how Stripe counts the amounts of each currency
- `csv`, `reading`: the export, and what a reader finds in it
- `reply`, `report`, `templates`: from a request to its answer

`app/` is the service around it: routes, the Stripe client and the clock. It
reads the key of the account from `STRIPE_SECRET_KEY`. The client needs one of
the TLS features of `async-stripe`.

`tests/` holds the tests of the library.
