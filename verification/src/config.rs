//! Settings.

use vstd::prelude::*;

use crate::providers::ProviderId;
use crate::text;

verus! {

/// Everything that can be set.
pub struct PechinchaConfig {
    pub general: GeneralConfig,
    pub providers: ProvidersConfig,
}

/// Settings of searches: the order of results, how many to show of each store, the
/// seconds to wait for a store, the port at which a browser can be reached, and the
/// minutes for which results are kept, none of them to keep nothing.
pub struct GeneralConfig {
    pub default_sort: String,
    pub results_per_provider: usize,
    pub timeout_seconds: u64,
    pub cdp_port: Option<u16>,
    pub cache_ttl_minutes: u64,
}

/// Settings of the stores.
pub struct ProvidersConfig {
    pub mercadolivre: ProviderConfig,
    pub aliexpress: AliExpressConfig,
    pub shopee: ShopeeConfig,
    pub amazon: AmazonConfig,
    pub amazon_us: AmazonConfig,
    pub kabum: ProviderConfig,
    pub magalu: ProviderConfig,
    pub olx: ProviderConfig,
    pub google_shopping: ProviderConfig,
    pub ebay: ProviderConfig,
}

/// Settings of a store: whether it is searched.
#[derive(Clone, Copy, Debug, PartialEq, Eq, Structural)]
pub struct ProviderConfig {
    pub enabled: bool,
}

/// Settings of AliExpress.
pub struct AliExpressConfig {
    pub enabled: bool,
    pub api_key: Option<String>,
    pub app_secret: Option<String>,
    pub tracking_id: Option<String>,
}

/// Settings of Shopee.
pub struct ShopeeConfig {
    pub enabled: bool,
    pub app_id: Option<String>,
    pub secret: Option<String>,
}

/// Settings of an Amazon site.
pub struct AmazonConfig {
    pub enabled: bool,
    pub access_key: Option<String>,
    pub secret_key: Option<String>,
    pub partner_tag: Option<String>,
}

/// Whether settings of searches are those that hold where none are made.
pub open spec fn default_general(c: GeneralConfig) -> bool {
    &&& c.default_sort@ == "total-cost"@
    &&& c.results_per_provider == 5
    &&& c.timeout_seconds == 30
    &&& c.cdp_port is None
    &&& c.cache_ttl_minutes == 30
}

/// Whether settings of the stores are those that hold where none are made: every store
/// is searched but AliExpress and Shopee, which take a browser, and Google Shopping,
/// which repeats the others.
pub open spec fn default_providers(c: ProvidersConfig) -> bool {
    &&& c.mercadolivre.enabled
    &&& !c.aliexpress.enabled
    &&& c.aliexpress.api_key is None
    &&& c.aliexpress.app_secret is None
    &&& c.aliexpress.tracking_id is None
    &&& !c.shopee.enabled
    &&& c.shopee.app_id is None
    &&& c.shopee.secret is None
    &&& default_amazon(c.amazon)
    &&& default_amazon(c.amazon_us)
    &&& c.kabum.enabled
    &&& c.magalu.enabled
    &&& c.olx.enabled
    &&& !c.google_shopping.enabled
    &&& c.ebay.enabled
}

/// Whether settings of an Amazon site are those that hold where none are made.
pub open spec fn default_amazon(c: AmazonConfig) -> bool {
    c.enabled && c.access_key is None && c.secret_key is None && c.partner_tag is None
}

impl Default for GeneralConfig {
    fn default() -> (r: GeneralConfig)
        ensures
            default_general(r),
    {
        GeneralConfig {
            default_sort: "total-cost".to_string(),
            results_per_provider: 5,
            timeout_seconds: 30,
            cdp_port: None,
            cache_ttl_minutes: 30,
        }
    }
}

impl Default for ProviderConfig {
    fn default() -> (r: ProviderConfig)
        ensures
            r.enabled,
    {
        ProviderConfig { enabled: true }
    }
}

impl Default for AliExpressConfig {
    fn default() -> (r: AliExpressConfig)
        ensures
            !r.enabled && r.api_key is None && r.app_secret is None && r.tracking_id is None,
    {
        AliExpressConfig { enabled: false, api_key: None, app_secret: None, tracking_id: None }
    }
}

impl Default for ShopeeConfig {
    fn default() -> (r: ShopeeConfig)
        ensures
            !r.enabled && r.app_id is None && r.secret is None,
    {
        ShopeeConfig { enabled: false, app_id: None, secret: None }
    }
}

impl Default for AmazonConfig {
    fn default() -> (r: AmazonConfig)
        ensures
            default_amazon(r),
    {
        AmazonConfig { enabled: true, access_key: None, secret_key: None, partner_tag: None }
    }
}

impl Default for ProvidersConfig {
    fn default() -> (r: ProvidersConfig)
        ensures
            default_providers(r),
    {
        ProvidersConfig {
            mercadolivre: ProviderConfig::default(),
            aliexpress: AliExpressConfig::default(),
            shopee: ShopeeConfig::default(),
            amazon: AmazonConfig::default(),
            amazon_us: AmazonConfig::default(),
            kabum: ProviderConfig::default(),
            magalu: ProviderConfig::default(),
            olx: ProviderConfig::default(),
            google_shopping: ProviderConfig { enabled: false },
            ebay: ProviderConfig::default(),
        }
    }
}

impl Default for PechinchaConfig {
    fn default() -> (r: PechinchaConfig)
        ensures
            default_general(r.general),
            default_providers(r.providers),
    {
        PechinchaConfig {
            general: GeneralConfig::default(),
            providers: ProvidersConfig::default(),
        }
    }
}

/// Whether a store is enabled in some settings.
pub open spec fn enabled(c: PechinchaConfig, id: ProviderId) -> bool {
    match id {
        ProviderId::MercadoLivre => c.providers.mercadolivre.enabled,
        ProviderId::AliExpress => c.providers.aliexpress.enabled,
        ProviderId::Shopee => c.providers.shopee.enabled,
        ProviderId::Amazon => c.providers.amazon.enabled,
        ProviderId::AmazonUS => c.providers.amazon_us.enabled,
        ProviderId::Kabum => c.providers.kabum.enabled,
        ProviderId::MagazineLuiza => c.providers.magalu.enabled,
        ProviderId::Olx => c.providers.olx.enabled,
        ProviderId::GoogleShopping => c.providers.google_shopping.enabled,
        ProviderId::Ebay => c.providers.ebay.enabled,
    }
}

/// Whether a store is enabled in some settings.
pub fn provider_enabled(config: &PechinchaConfig, id: ProviderId) -> (r: bool)
    ensures
        r == enabled(*config, id),
{
    match id {
        ProviderId::MercadoLivre => config.providers.mercadolivre.enabled,
        ProviderId::AliExpress => config.providers.aliexpress.enabled,
        ProviderId::Shopee => config.providers.shopee.enabled,
        ProviderId::Amazon => config.providers.amazon.enabled,
        ProviderId::AmazonUS => config.providers.amazon_us.enabled,
        ProviderId::Kabum => config.providers.kabum.enabled,
        ProviderId::MagazineLuiza => config.providers.magalu.enabled,
        ProviderId::Olx => config.providers.olx.enabled,
        ProviderId::GoogleShopping => config.providers.google_shopping.enabled,
        ProviderId::Ebay => config.providers.ebay.enabled,
    }
}

/// The file in a directory of settings that holds those of this program.
pub fn default_config_path(config_dir: &str) -> (r: String)
    ensures
        r@ == config_dir@ + "/pechincha/config.toml"@,
{
    text::join2(config_dir, "/pechincha/config.toml")
}

/// Without settings five results of each store are shown, from the cheapest in all on, after
/// at most 30 seconds and without a browser, and are kept for 30 minutes.
pub proof fn five_results_by_default(c: GeneralConfig)
    requires
        default_general(c),
    ensures
        c.results_per_provider == 5,
        c.default_sort@ == "total-cost"@,
        c.timeout_seconds == 30,
        c.cache_ttl_minutes == 30,
        c.cdp_port is None,
{
}

/// Without settings every store is searched that needs no browser: neither AliExpress nor
/// Shopee nor Google Shopping.
pub proof fn plain_stores_by_default(c: PechinchaConfig, id: ProviderId)
    requires
        default_providers(c.providers),
    ensures
        enabled(c, id) <==> id != ProviderId::AliExpress && id != ProviderId::Shopee && id
            != ProviderId::GoogleShopping,
{
}

} // verus!
