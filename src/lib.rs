//! Portfolio quotes: exact decimal amounts, reading quotes out of the quote
//! endpoint's responses, the stock-then-ETF lookup fallback, the per-symbol
//! quote table, and the per-holding gain/loss report.

pub mod config;
pub mod decimal;
pub mod figures;
pub mod quote;
pub mod render;
pub mod table;

pub use config::{holding_from_fields, ConfigError};
pub use decimal::{parse_decimal, parse_price, Amount};
pub use figures::{divide_rounded, figures, Figures};
pub use quote::{
    after_lookup, class_name, first_lookup, lookup_url, quote_from_body, quote_from_fields,
    AssetClass, Next, Quote,
};
pub use render::{hundredths_string, report, row};
pub use table::{distinct_symbols, Account, Holding, QuoteTable};
