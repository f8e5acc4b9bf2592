//! Price comparison across Brazilian and international stores.

pub mod browser;
pub mod cache;
pub mod cdp;
pub mod cli;
pub mod clock;
pub mod codec;
pub mod config;
pub mod cookies;
pub mod currency;
pub mod daemon;
pub mod decimal;
pub mod display;
pub mod enrich;
pub mod error;
pub mod history;
pub mod html;
pub mod json;
pub mod keepa;
pub mod models;
pub mod notify;
pub mod order;
pub mod pattern;
pub mod providers;
pub mod rating;
pub mod scoring;
pub mod scraping;
pub mod search;
pub mod session;
pub mod tax;
pub mod text;
pub mod watch;

pub use config::PechinchaConfig;
pub use error::{PechinchaError, ProviderError};
pub use models::{
    Currency, InstallmentInfo, PriceInfo, Product, ProductCondition, SearchQuery, SearchResults,
    SellerInfo, SortOrder, TaxInfo, TaxRegime,
};
pub use providers::{Provider, ProviderId};
pub use search::SearchOrchestrator;
