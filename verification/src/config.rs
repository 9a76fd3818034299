//! Configuration: what the settings are, what they default to, and how secrets from the
//! environment override them.

use vstd::prelude::*;

use crate::double::Double;
use crate::text;
use crate::text_laws;

verus! {

/// Top-level configuration.
#[derive(Debug)]
pub struct Config {
    pub auth: AuthConfig,
    pub clob: ClobConfig,
    pub trading: TradingConfig,
    pub strategy: StrategyConfig,
    pub risk: RiskConfig,
    pub article: ArticleConfig,
    pub arb: ArbConfig,
    pub feeds: FeedConfig,
    pub discovery: DiscoveryConfig,
    pub database: DatabaseConfig,
    pub telegram: TelegramConfig,
    pub web: WebConfig,
    pub logging: LoggingConfig,
}

/// Wallet and exchange credentials.
#[derive(Debug)]
pub struct AuthConfig {
    pub private_key: String,
    pub funder_address: String,
    pub signature_type: u8,
    pub clob_api_key: String,
    pub clob_api_secret: String,
    pub clob_api_passphrase: String,
}

/// Exchange endpoints.
#[derive(Debug)]
pub struct ClobConfig {
    pub base_url: String,
    pub gamma_base_url: String,
    pub ws_market_url: String,
    pub ws_user_url: String,
    pub chain_id: u64,
}

/// Trading switches.
#[derive(Clone, Copy, Debug)]
pub struct TradingConfig {
    pub enabled: bool,
    pub paper_mode: bool,
}

/// Parameters of the quote pricer.
#[derive(Clone, Copy, Debug)]
pub struct StrategyConfig {
    pub min_half_spread: Double,
    pub volatility_coefficient: Double,
    pub inventory_skew_factor: Double,
    pub cancel_threshold_bps: Double,
    pub default_order_size: Double,
    pub quote_size: Double,
}

/// Limits that the risk manager enforces.
#[derive(Clone, Copy, Debug)]
pub struct RiskConfig {
    pub max_yes_position: Double,
    pub max_no_position: Double,
    pub max_total_exposure_usd: Double,
    pub max_concurrent_markets: usize,
    pub max_daily_loss_usd: Double,
    pub max_order_size: Double,
    pub min_order_size: Double,
    pub max_inventory_imbalance: Double,
}

/// Parameters of the endgame strategy.
#[derive(Clone, Copy, Debug)]
pub struct ArticleConfig {
    pub enabled: bool,
    pub min_bn_delta_60s_bps: Double,
    pub min_cb_delta_60s_bps: Double,
    pub min_trending_mid: Double,
    pub article_size: Double,
    pub entry_price_cap: Double,
    pub trigger_seconds_before_close: Double,
    pub min_seconds_before_close: Double,
}

/// Parameters of the two-sided arbitrage.
#[derive(Clone, Copy, Debug)]
pub struct ArbConfig {
    /// Log opportunities without acting on them.
    pub monitor_only: bool,
    /// Least edge, in cents, that counts as an opportunity.
    pub min_alert_edge_cents: Double,
    /// Dollars to spend at most on each side: 0.50 is half a dollar for each, one in all.
    pub order_size_usd: Double,
}

/// Market data endpoints.
#[derive(Debug)]
pub struct FeedConfig {
    pub binance_ws_url: String,
    pub coinbase_ws_url: String,
    pub oracle_stale_max_ms: Double,
    pub book_stale_max_ms: Double,
    pub polymarket_ws_url: String,
}

/// Which markets to look for.
#[derive(Debug)]
pub struct DiscoveryConfig {
    pub poll_interval_ms: u64,
    pub allowed_assets: Vec<String>,
    pub allowed_timeframes: Vec<String>,
    pub max_tracked_markets: usize,
}

/// Database endpoint.
#[derive(Debug)]
pub struct DatabaseConfig {
    pub url: String,
}

/// Telegram credentials.
#[derive(Debug)]
pub struct TelegramConfig {
    pub bot_token: Option<String>,
    pub chat_id: Option<String>,
}

/// Dashboard switches.
#[derive(Clone, Copy, Debug)]
pub struct WebConfig {
    pub enabled: bool,
    pub port: u16,
}

/// Logging switches.
#[derive(Debug)]
pub struct LoggingConfig {
    pub log_level: String,
    pub json_output: bool,
}

/// What the environment says of secrets, by variable.
#[derive(Debug)]
pub struct Secrets {
    pub private_key: Option<String>,
    pub funder_address: Option<String>,
    pub signature_type: Option<String>,
    pub clob_api_key: Option<String>,
    pub clob_secret: Option<String>,
    pub clob_passphrase: Option<String>,
    pub database_url: Option<String>,
    pub telegram_bot_token: Option<String>,
    pub telegram_chat_id: Option<String>,
}

impl Clone for AuthConfig {
    fn clone(&self) -> (r: AuthConfig)
        ensures
            r == *self,
    {
        AuthConfig {
            private_key: self.private_key.clone(),
            funder_address: self.funder_address.clone(),
            signature_type: self.signature_type,
            clob_api_key: self.clob_api_key.clone(),
            clob_api_secret: self.clob_api_secret.clone(),
            clob_api_passphrase: self.clob_api_passphrase.clone(),
        }
    }
}

impl Clone for ClobConfig {
    fn clone(&self) -> (r: ClobConfig)
        ensures
            r == *self,
    {
        ClobConfig {
            base_url: self.base_url.clone(),
            gamma_base_url: self.gamma_base_url.clone(),
            ws_market_url: self.ws_market_url.clone(),
            ws_user_url: self.ws_user_url.clone(),
            chain_id: self.chain_id,
        }
    }
}

impl Clone for FeedConfig {
    fn clone(&self) -> (r: FeedConfig)
        ensures
            r == *self,
    {
        FeedConfig {
            binance_ws_url: self.binance_ws_url.clone(),
            coinbase_ws_url: self.coinbase_ws_url.clone(),
            oracle_stale_max_ms: self.oracle_stale_max_ms,
            book_stale_max_ms: self.book_stale_max_ms,
            polymarket_ws_url: self.polymarket_ws_url.clone(),
        }
    }
}

impl Clone for DiscoveryConfig {
    fn clone(&self) -> (r: DiscoveryConfig)
        ensures
            r.poll_interval_ms == self.poll_interval_ms,
            text::texts(r.allowed_assets@) == text::texts(self.allowed_assets@),
            text::texts(r.allowed_timeframes@) == text::texts(self.allowed_timeframes@),
            r.max_tracked_markets == self.max_tracked_markets,
    {
        DiscoveryConfig {
            poll_interval_ms: self.poll_interval_ms,
            allowed_assets: text::copied(&self.allowed_assets),
            allowed_timeframes: text::copied(&self.allowed_timeframes),
            max_tracked_markets: self.max_tracked_markets,
        }
    }
}

impl Clone for DatabaseConfig {
    fn clone(&self) -> (r: DatabaseConfig)
        ensures
            r == *self,
    {
        DatabaseConfig { url: self.url.clone() }
    }
}

fn copy_option(s: &Option<String>) -> (r: Option<String>)
    ensures
        r == *s,
{
    match s {
        Some(t) => Some(t.clone()),
        None => None,
    }
}

impl Clone for TelegramConfig {
    fn clone(&self) -> (r: TelegramConfig)
        ensures
            r == *self,
    {
        TelegramConfig {
            bot_token: copy_option(&self.bot_token),
            chat_id: copy_option(&self.chat_id),
        }
    }
}

impl Clone for LoggingConfig {
    fn clone(&self) -> (r: LoggingConfig)
        ensures
            r == *self,
    {
        LoggingConfig { log_level: self.log_level.clone(), json_output: self.json_output }
    }
}

impl Clone for Config {
    fn clone(&self) -> (r: Config)
        ensures
            r.auth == self.auth,
            r.clob == self.clob,
            r.trading == self.trading,
            r.strategy == self.strategy,
            r.risk == self.risk,
            r.article == self.article,
            r.arb == self.arb,
            r.feeds == self.feeds,
            r.discovery.poll_interval_ms == self.discovery.poll_interval_ms,
            text::texts(r.discovery.allowed_assets@) == text::texts(
                self.discovery.allowed_assets@,
            ),
            text::texts(r.discovery.allowed_timeframes@) == text::texts(
                self.discovery.allowed_timeframes@,
            ),
            r.discovery.max_tracked_markets == self.discovery.max_tracked_markets,
            r.database == self.database,
            r.telegram == self.telegram,
            r.web == self.web,
            r.logging == self.logging,
    {
        Config {
            auth: self.auth.clone(),
            clob: self.clob.clone(),
            trading: self.trading,
            strategy: self.strategy,
            risk: self.risk,
            article: self.article,
            arb: self.arb,
            feeds: self.feeds.clone(),
            discovery: self.discovery.clone(),
            database: self.database.clone(),
            telegram: self.telegram.clone(),
            web: self.web,
            logging: self.logging.clone(),
        }
    }
}

pub fn default_sig_type() -> (r: u8)
    ensures
        r == 1,
{
    1
}

pub fn default_chain_id() -> (r: u64)
    ensures
        r == 137,
{
    137
}

pub fn default_max_markets() -> (r: usize)
    ensures
        r == 8,
{
    8
}

pub fn default_poll_interval() -> (r: u64)
    ensures
        r == 1500,
{
    1500
}

pub fn default_max_tracked() -> (r: usize)
    ensures
        r == 3,
{
    3
}

pub fn default_port() -> (r: u16)
    ensures
        r == 8080,
{
    8080
}

pub fn default_true() -> (r: bool)
    ensures
        r,
{
    true
}

pub fn default_clob_url() -> (r: String)
    ensures
        r@ == "https://clob.polymarket.com"@,
{
    "https://clob.polymarket.com".to_string()
}

pub fn default_gamma_url() -> (r: String)
    ensures
        r@ == "https://gamma-api.polymarket.com"@,
{
    "https://gamma-api.polymarket.com".to_string()
}

pub fn default_ws_market_url() -> (r: String)
    ensures
        r@ == "wss://ws-subscriptions-clob.polymarket.com/ws/market"@,
{
    "wss://ws-subscriptions-clob.polymarket.com/ws/market".to_string()
}

pub fn default_ws_user_url() -> (r: String)
    ensures
        r@ == "wss://ws-subscriptions-clob.polymarket.com/ws/user"@,
{
    "wss://ws-subscriptions-clob.polymarket.com/ws/user".to_string()
}

pub fn default_binance_ws() -> (r: String)
    ensures
        r@ == "wss://stream.binance.com:9443/ws"@,
{
    "wss://stream.binance.com:9443/ws".to_string()
}

pub fn default_coinbase_ws() -> (r: String)
    ensures
        r@ == "wss://ws-feed.exchange.coinbase.com"@,
{
    "wss://ws-feed.exchange.coinbase.com".to_string()
}

pub fn default_log_level() -> (r: String)
    ensures
        r@ == "info"@,
{
    "info".to_string()
}

pub fn default_min_half_spread() -> (r: Double)
    ensures
        r == Double::ratio(1, 100),
{
    Double::ratio(1, 100)
}

pub fn default_vol_coeff() -> (r: Double)
    ensures
        r == Double::ratio(1, 2),
{
    Double::ratio(1, 2)
}

pub fn default_skew_factor() -> (r: Double)
    ensures
        r == Double::ratio(2, 100),
{
    Double::ratio(2, 100)
}

pub fn default_cancel_threshold() -> (r: Double)
    ensures
        r == Double::ratio(2, 1),
{
    Double::ratio(2, 1)
}

pub fn default_default_order_size() -> (r: Double)
    ensures
        r == Double::ratio(10, 1),
{
    Double::ratio(10, 1)
}

pub fn default_quote_size() -> (r: Double)
    ensures
        r == Double::ratio(20, 1),
{
    Double::ratio(20, 1)
}

pub fn default_max_position() -> (r: Double)
    ensures
        r == Double::ratio(100, 1),
{
    Double::ratio(100, 1)
}

pub fn default_max_exposure() -> (r: Double)
    ensures
        r == Double::ratio(500, 1),
{
    Double::ratio(500, 1)
}

pub fn default_max_daily_loss() -> (r: Double)
    ensures
        r == Double::ratio(50, 1),
{
    Double::ratio(50, 1)
}

pub fn default_max_order_size() -> (r: Double)
    ensures
        r == Double::ratio(50, 1),
{
    Double::ratio(50, 1)
}

pub fn default_min_order_size() -> (r: Double)
    ensures
        r == Double::ratio(5, 1),
{
    Double::ratio(5, 1)
}

pub fn default_max_imbalance() -> (r: Double)
    ensures
        r == Double::ratio(80, 1),
{
    Double::ratio(80, 1)
}

pub fn default_article_bn_delta() -> (r: Double)
    ensures
        r == Double::ratio(15, 1),
{
    Double::ratio(15, 1)
}

pub fn default_article_cb_delta() -> (r: Double)
    ensures
        r == Double::ratio(10, 1),
{
    Double::ratio(10, 1)
}

pub fn default_article_trending_mid() -> (r: Double)
    ensures
        r == Double::ratio(75, 100),
{
    Double::ratio(75, 100)
}

pub fn default_article_size() -> (r: Double)
    ensures
        r == Double::ratio(20, 1),
{
    Double::ratio(20, 1)
}

pub fn default_article_price_cap() -> (r: Double)
    ensures
        r == Double::ratio(95, 100),
{
    Double::ratio(95, 100)
}

pub fn default_article_trigger_secs() -> (r: Double)
    ensures
        r == Double::ratio(10, 1),
{
    Double::ratio(10, 1)
}

pub fn default_article_min_secs() -> (r: Double)
    ensures
        r == Double::ratio(2, 1),
{
    Double::ratio(2, 1)
}

pub fn default_order_size_usd() -> (r: Double)
    ensures
        r == Double::ratio(1, 2),
{
    Double::ratio(1, 2)
}

pub fn default_min_alert_edge() -> (r: Double)
    ensures
        r == Double::ratio(5, 1000),
{
    Double::ratio(5, 1000)
}

pub fn default_oracle_stale() -> (r: Double)
    ensures
        r == Double::ratio(2000, 1),
{
    Double::ratio(2000, 1)
}

pub fn default_book_stale() -> (r: Double)
    ensures
        r == Double::ratio(3000, 1),
{
    Double::ratio(3000, 1)
}

pub fn default_allowed_assets() -> (r: Vec<String>)
    ensures
        r@.len() == 2,
        r@[0]@ == "btc"@,
        r@[1]@ == "eth"@,
{
    let mut all: Vec<String> = Vec::new();
    all.push("btc".to_string());
    all.push("eth".to_string());
    all
}

pub fn default_allowed_timeframes() -> (r: Vec<String>)
    ensures
        r@.len() == 2,
        r@[0]@ == "5min"@,
        r@[1]@ == "15min"@,
{
    let mut all: Vec<String> = Vec::new();
    all.push("5min".to_string());
    all.push("15min".to_string());
    all
}

/// A value from the environment, or else the configured one.
pub open spec fn overridden<T>(env: Option<T>, base: T) -> T {
    match env {
        Some(v) => v,
        None => base,
    }
}

/// The signature type that the environment asks for; what is no such number means 1.
pub open spec fn signature_type_of(env: Seq<char>) -> int {
    if text::is_number(env, 255) {
        text::digits_value(text::number_body(env))
    } else {
        1
    }
}

fn pick(env: Option<String>, base: String) -> (r: String)
    ensures
        r == overridden(env, base),
{
    match env {
        Some(v) => v,
        None => base,
    }
}

impl Config {
    /// Overrides the secrets of the configuration by those from the environment.
    pub fn load(base: Config, env: Secrets) -> (cfg: Config)
        ensures
            cfg.auth.private_key == overridden(env.private_key, base.auth.private_key),
            cfg.auth.funder_address == overridden(env.funder_address, base.auth.funder_address),
            cfg.auth.signature_type == (match env.signature_type {
                Some(v) => signature_type_of(v@),
                None => base.auth.signature_type as int,
            }),
            cfg.auth.clob_api_key == overridden(env.clob_api_key, base.auth.clob_api_key),
            cfg.auth.clob_api_secret == overridden(env.clob_secret, base.auth.clob_api_secret),
            cfg.auth.clob_api_passphrase == overridden(
                env.clob_passphrase,
                base.auth.clob_api_passphrase,
            ),
            cfg.database.url == overridden(env.database_url, base.database.url),
            cfg.telegram.bot_token == (if env.telegram_bot_token is Some {
                env.telegram_bot_token
            } else {
                base.telegram.bot_token
            }),
            cfg.telegram.chat_id == (if env.telegram_chat_id is Some {
                env.telegram_chat_id
            } else {
                base.telegram.chat_id
            }),
            cfg == (Config {
                auth: cfg.auth,
                database: cfg.database,
                telegram: cfg.telegram,
                ..base
            }),
    {
        let signature_type: u8 = match env.signature_type {
            Some(v) => {
                match text::parse_number(v.as_str(), 255) {
                    Some(n) => n as u8,
                    None => 1,
                }
            },
            None => base.auth.signature_type,
        };
        let auth: AuthConfig = AuthConfig {
            private_key: pick(env.private_key, base.auth.private_key),
            funder_address: pick(env.funder_address, base.auth.funder_address),
            signature_type,
            clob_api_key: pick(env.clob_api_key, base.auth.clob_api_key),
            clob_api_secret: pick(env.clob_secret, base.auth.clob_api_secret),
            clob_api_passphrase: pick(env.clob_passphrase, base.auth.clob_api_passphrase),
        };
        let database: DatabaseConfig = DatabaseConfig {
            url: pick(env.database_url, base.database.url),
        };
        let telegram: TelegramConfig = TelegramConfig {
            bot_token: match env.telegram_bot_token {
                Some(v) => Some(v),
                None => base.telegram.bot_token,
            },
            chat_id: match env.telegram_chat_id {
                Some(v) => Some(v),
                None => base.telegram.chat_id,
            },
        };
        Config {
            auth,
            clob: base.clob,
            trading: base.trading,
            strategy: base.strategy,
            risk: base.risk,
            article: base.article,
            arb: base.arb,
            feeds: base.feeds,
            discovery: base.discovery,
            database,
            telegram,
            web: base.web,
            logging: base.logging,
        }
    }
}

impl WebConfig {
    /// The port to listen on: the one that the environment gives, if it is one, or else
    /// the configured one.
    pub fn effective_port(&self, env: Option<&str>) -> (r: u16)
        ensures
            r == (match env {
                Some(v) => if text::is_number(v@, 65535) {
                    text::digits_value(text::number_body(v@))
                } else {
                    self.port as int
                },
                None => self.port as int,
            }),
    {
        match env {
            Some(v) => {
                match text::parse_number(v, 65535) {
                    Some(n) => n as u16,
                    None => self.port,
                }
            },
            None => self.port,
        }
    }
}

/// What the environment states comes before what the configuration states.
pub proof fn environment_comes_first<T>(stated: T, base: T)
    ensures
        overridden(Some(stated), base) == stated,
        overridden(None, base) == base,
{
}

/// The type of signature is read as a number of up to 255; any other text counts as one.
pub proof fn signature_types_are_read(n: nat, s: Seq<char>)
    ensures
        n <= 255 ==> signature_type_of(text::spec_decimal(n)) == n,
        n > 255 ==> signature_type_of(text::spec_decimal(n)) == 1,
        s.len() == 0 ==> signature_type_of(s) == 1,
{
    text_laws::written_numbers_are_read(n, 255);
    if s.len() == 0 {
        text_laws::other_texts_are_no_numbers(s, 255, 0);
    }
}

} // verus!
