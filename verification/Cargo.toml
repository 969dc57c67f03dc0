[package]
name = "stripe-ticket-printer"
version = "0.1.0"
edition = "2021"
publish = false

[dependencies]
async-stripe = { version = "1.0.0-alpha.1", default-features = false }
async-stripe-billing = { version = "1.0.0-alpha.1", features = ["subscription"] }
async-stripe-core = { version = "1.0.0-alpha.1", features = ["customer"] }
async-stripe-shared = "1.0.0-alpha.1"
axum = { version = "0.8", default-features = false, features = ["http1", "query", "tokio"] }
chrono = { version = "0.4", default-features = false, features = ["clock", "std"] }
serde = { version = "1", features = ["derive"] }
tokio = { version = "1", features = ["macros", "net", "rt-multi-thread"] }
tower-http = { version = "*", default-features = false, features = ["trace"] }
tracing = "0.1"
tracing-subscriber = { version = "0.3", default-features = false, features = ["env-filter", "fmt"] }
typst = "0.15"
typst-as-lib = { version = "*", default-features = false, features = ["typst-kit-fonts", "typst-kit-embed-fonts"] }
typst-layout = "0.15"
typst-pdf = "0.15"

[dev-dependencies]
lopdf = { version = "0.34", default-features = false, features = ["nom_parser"] }
