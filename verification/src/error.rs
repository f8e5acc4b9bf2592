//! What can go wrong in a search.

use vstd::prelude::*;

use crate::providers;
use crate::providers::ProviderId;
use crate::text;

verus! {

/// Why a store gave no results.
pub enum ProviderError {
    Http(String),
    Parse(String),
    RateLimited { provider: String, retry_after: Option<u64> },
    Auth(String),
    NoResults,
    Timeout(u64),
    Scraping(String),
    Browser(String),
}

/// Why a store gave no results.
pub enum ProviderErrorView {
    Http(Seq<char>),
    Parse(Seq<char>),
    RateLimited { provider: Seq<char>, retry_after: Option<u64> },
    Auth(Seq<char>),
    NoResults,
    Timeout(nat),
    Scraping(Seq<char>),
    Browser(Seq<char>),
}

impl View for ProviderError {
    type V = ProviderErrorView;

    open spec fn view(&self) -> ProviderErrorView {
        match *self {
            ProviderError::Http(s) => ProviderErrorView::Http(s@),
            ProviderError::Parse(s) => ProviderErrorView::Parse(s@),
            ProviderError::RateLimited { provider, retry_after } => ProviderErrorView::RateLimited {
                provider: provider@,
                retry_after,
            },
            ProviderError::Auth(s) => ProviderErrorView::Auth(s@),
            ProviderError::NoResults => ProviderErrorView::NoResults,
            ProviderError::Timeout(n) => ProviderErrorView::Timeout(n as nat),
            ProviderError::Scraping(s) => ProviderErrorView::Scraping(s@),
            ProviderError::Browser(s) => ProviderErrorView::Browser(s@),
        }
    }
}

/// Why a store gave no results, in words.
pub open spec fn provider_error_text(e: ProviderErrorView) -> Seq<char> {
    match e {
        ProviderErrorView::Http(s) => "HTTP request failed: "@ + s,
        ProviderErrorView::Parse(s) => "Failed to parse response: "@ + s,
        ProviderErrorView::RateLimited { provider, retry_after } => "Rate limited by "@ + provider,
        ProviderErrorView::Auth(s) => "Authentication failed — check API credentials for "@ + s,
        ProviderErrorView::NoResults => "Provider returned no results"@,
        ProviderErrorView::Timeout(n) => "Request timed out after "@ + text::number_text(n) + "s"@,
        ProviderErrorView::Scraping(s) => "Scraping failed — site structure may have changed: "@ + s,
        ProviderErrorView::Browser(s) => "Headless browser error: "@ + s,
    }
}

impl ProviderError {
    /// Why a store gave no results, in words.
    pub fn message(&self) -> (r: String)
        ensures
            r@ == provider_error_text(self@),
    {
        match self {
            ProviderError::Http(s) => text::join2("HTTP request failed: ", s.as_str()),
            ProviderError::Parse(s) => text::join2("Failed to parse response: ", s.as_str()),
            ProviderError::RateLimited { provider, retry_after: _ } => text::join2(
                "Rate limited by ",
                provider.as_str(),
            ),
            ProviderError::Auth(s) => text::join2(
                "Authentication failed — check API credentials for ",
                s.as_str(),
            ),
            ProviderError::NoResults => "Provider returned no results".to_string(),
            ProviderError::Timeout(n) => {
                let seconds = text::show_number(*n);
                text::join3("Request timed out after ", seconds.as_str(), "s")
            },
            ProviderError::Scraping(s) => text::join2(
                "Scraping failed — site structure may have changed: ",
                s.as_str(),
            ),
            ProviderError::Browser(s) => text::join2("Headless browser error: ", s.as_str()),
        }
    }
}

/// Why a search could not be made.
pub enum PechinchaError {
    Provider { provider: ProviderId, source: ProviderError },
    Config(String),
    NoProviders,
    AllProvidersFailed(Vec<(ProviderId, ProviderError)>),
}

/// Why a search could not be made.
pub enum PechinchaErrorView {
    Provider { provider: ProviderId, source: ProviderErrorView },
    Config(Seq<char>),
    NoProviders,
    AllProvidersFailed(Seq<(ProviderId, ProviderErrorView)>),
}

/// Some stores with the reasons why they gave no results.
pub open spec fn failures(v: Seq<(ProviderId, ProviderError)>) -> Seq<
    (ProviderId, ProviderErrorView),
> {
    Seq::new(v.len(), |i: int| (v[i].0, v[i].1@))
}

impl View for PechinchaError {
    type V = PechinchaErrorView;

    open spec fn view(&self) -> PechinchaErrorView {
        match *self {
            PechinchaError::Provider { provider, source } => PechinchaErrorView::Provider {
                provider,
                source: source@,
            },
            PechinchaError::Config(s) => PechinchaErrorView::Config(s@),
            PechinchaError::NoProviders => PechinchaErrorView::NoProviders,
            PechinchaError::AllProvidersFailed(v) => PechinchaErrorView::AllProvidersFailed(
                failures(v@),
            ),
        }
    }
}

/// Why a search could not be made, in words.
pub open spec fn pechincha_error_text(e: PechinchaErrorView) -> Seq<char> {
    match e {
        PechinchaErrorView::Provider { provider, source } => "Provider '"@
            + providers::provider_label(provider) + "' failed: "@ + provider_error_text(source),
        PechinchaErrorView::Config(s) => "Configuration error: "@ + s,
        PechinchaErrorView::NoProviders => "No providers available for this search"@,
        PechinchaErrorView::AllProvidersFailed(v) => "All providers failed"@,
    }
}

impl PechinchaError {
    /// Why a search could not be made, in words.
    pub fn message(&self) -> (r: String)
        ensures
            r@ == pechincha_error_text(self@),
    {
        match self {
            PechinchaError::Provider { provider, source } => {
                let mut out = text::join3("Provider '", provider.label(), "' failed: ");
                let reason = source.message();
                out.append(reason.as_str());
                out
            },
            PechinchaError::Config(s) => text::join2("Configuration error: ", s.as_str()),
            PechinchaError::NoProviders => "No providers available for this search".to_string(),
            PechinchaError::AllProvidersFailed(_) => "All providers failed".to_string(),
        }
    }
}

/// Errors are told in words that name their reason.
pub proof fn errors_name_their_reason(s: Seq<char>, n: nat, retry_after: Option<u64>)
    ensures
        provider_error_text(ProviderErrorView::Http(s)) == "HTTP request failed: "@ + s,
        provider_error_text(ProviderErrorView::Parse(s)) == "Failed to parse response: "@ + s,
        provider_error_text(ProviderErrorView::Auth(s))
            == "Authentication failed — check API credentials for "@ + s,
        provider_error_text(ProviderErrorView::Timeout(n)) == "Request timed out after "@
            + text::number_text(n) + "s"@,
        provider_error_text(ProviderErrorView::Scraping(s))
            == "Scraping failed — site structure may have changed: "@ + s,
        provider_error_text(ProviderErrorView::Browser(s)) == "Headless browser error: "@ + s,
        provider_error_text(ProviderErrorView::NoResults) == "Provider returned no results"@,
        provider_error_text(ProviderErrorView::RateLimited { provider: s, retry_after })
            == "Rate limited by "@ + s,
        pechincha_error_text(PechinchaErrorView::Config(s)) == "Configuration error: "@ + s,
        pechincha_error_text(PechinchaErrorView::NoProviders)
            == "No providers available for this search"@,
{
}

} // verus!
