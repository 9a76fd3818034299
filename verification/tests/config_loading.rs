use maker_bot::startup::retry_after;
use maker_bot::config::{
    self, ArbConfig, ArticleConfig, AuthConfig, ClobConfig, Config, DatabaseConfig,
    DiscoveryConfig, FeedConfig, LoggingConfig, RiskConfig, Secrets, StrategyConfig,
    TelegramConfig, TradingConfig, WebConfig,
};
use maker_bot::double::Double;

fn f(x: Double) -> f64 {
    f64::from_bits(x.to_bits())
}

fn base() -> Config {
    Config {
        auth: AuthConfig {
            private_key: "file-key".to_string(),
            funder_address: "file-funder".to_string(),
            signature_type: 2,
            clob_api_key: "file-api".to_string(),
            clob_api_secret: "file-secret".to_string(),
            clob_api_passphrase: "file-pass".to_string(),
        },
        clob: ClobConfig {
            base_url: config::default_clob_url(),
            gamma_base_url: config::default_gamma_url(),
            ws_market_url: config::default_ws_market_url(),
            ws_user_url: config::default_ws_user_url(),
            chain_id: config::default_chain_id(),
        },
        trading: TradingConfig { enabled: false, paper_mode: true },
        strategy: StrategyConfig {
            min_half_spread: config::default_min_half_spread(),
            volatility_coefficient: config::default_vol_coeff(),
            inventory_skew_factor: config::default_skew_factor(),
            cancel_threshold_bps: config::default_cancel_threshold(),
            default_order_size: config::default_default_order_size(),
            quote_size: config::default_quote_size(),
        },
        risk: RiskConfig {
            max_yes_position: config::default_max_position(),
            max_no_position: config::default_max_position(),
            max_total_exposure_usd: config::default_max_exposure(),
            max_concurrent_markets: config::default_max_markets(),
            max_daily_loss_usd: config::default_max_daily_loss(),
            max_order_size: config::default_max_order_size(),
            min_order_size: config::default_min_order_size(),
            max_inventory_imbalance: config::default_max_imbalance(),
        },
        article: ArticleConfig {
            enabled: config::default_true(),
            min_bn_delta_60s_bps: config::default_article_bn_delta(),
            min_cb_delta_60s_bps: config::default_article_cb_delta(),
            min_trending_mid: config::default_article_trending_mid(),
            article_size: config::default_article_size(),
            entry_price_cap: config::default_article_price_cap(),
            trigger_seconds_before_close: config::default_article_trigger_secs(),
            min_seconds_before_close: config::default_article_min_secs(),
        },
        arb: ArbConfig {
            monitor_only: config::default_true(),
            min_alert_edge_cents: config::default_min_alert_edge(),
            order_size_usd: config::default_order_size_usd(),
        },
        feeds: FeedConfig {
            binance_ws_url: config::default_binance_ws(),
            coinbase_ws_url: config::default_coinbase_ws(),
            oracle_stale_max_ms: config::default_oracle_stale(),
            book_stale_max_ms: config::default_book_stale(),
            polymarket_ws_url: config::default_ws_market_url(),
        },
        discovery: DiscoveryConfig {
            poll_interval_ms: config::default_poll_interval(),
            allowed_assets: config::default_allowed_assets(),
            allowed_timeframes: config::default_allowed_timeframes(),
            max_tracked_markets: config::default_max_tracked(),
        },
        database: DatabaseConfig { url: "file-db".to_string() },
        telegram: TelegramConfig { bot_token: None, chat_id: Some("file-chat".to_string()) },
        web: WebConfig { enabled: true, port: config::default_port() },
        logging: LoggingConfig { log_level: config::default_log_level(), json_output: false },
    }
}

fn nothing() -> Secrets {
    Secrets {
        private_key: None,
        funder_address: None,
        signature_type: None,
        clob_api_key: None,
        clob_secret: None,
        clob_passphrase: None,
        database_url: None,
        telegram_bot_token: None,
        telegram_chat_id: None,
    }
}

#[test]
fn config_defaults_are_the_documented_ones() {
    assert_eq!(config::default_sig_type(), 1);
    assert_eq!(config::default_chain_id(), 137);
    assert_eq!(f(config::default_min_half_spread()), 0.01);
    assert_eq!(f(config::default_vol_coeff()), 0.5);
    assert_eq!(f(config::default_skew_factor()), 0.02);
    assert_eq!(f(config::default_cancel_threshold()), 2.0);
    assert_eq!(f(config::default_default_order_size()), 10.0);
    assert_eq!(f(config::default_quote_size()), 20.0);
    assert_eq!(f(config::default_max_position()), 100.0);
    assert_eq!(f(config::default_max_exposure()), 500.0);
    assert_eq!(config::default_max_markets(), 8);
    assert_eq!(f(config::default_max_daily_loss()), 50.0);
    assert_eq!(f(config::default_max_order_size()), 50.0);
    assert_eq!(f(config::default_min_order_size()), 5.0);
    assert_eq!(f(config::default_max_imbalance()), 80.0);
    assert_eq!(f(config::default_article_bn_delta()), 15.0);
    assert_eq!(f(config::default_article_cb_delta()), 10.0);
    assert_eq!(f(config::default_article_trending_mid()), 0.75);
    assert_eq!(f(config::default_article_size()), 20.0);
    assert_eq!(f(config::default_article_price_cap()), 0.95);
    assert_eq!(f(config::default_article_trigger_secs()), 10.0);
    assert_eq!(f(config::default_article_min_secs()), 2.0);
    assert_eq!(f(config::default_order_size_usd()), 0.50);
    assert_eq!(f(config::default_min_alert_edge()), 0.005);
    assert_eq!(f(config::default_oracle_stale()), 2000.0);
    assert_eq!(f(config::default_book_stale()), 3000.0);
    assert_eq!(config::default_poll_interval(), 1500);
    assert_eq!(config::default_allowed_assets(), vec!["btc", "eth"]);
    assert_eq!(config::default_allowed_timeframes(), vec!["5min", "15min"]);
    assert_eq!(config::default_max_tracked(), 3);
    assert_eq!(config::default_port(), 8080);
    assert_eq!(config::default_log_level(), "info");
    assert_eq!(config::default_binance_ws(), "wss://stream.binance.com:9443/ws");
    assert_eq!(config::default_coinbase_ws(), "wss://ws-feed.exchange.coinbase.com");
}

#[test]
fn without_environment_the_file_stands() {
    let cfg = Config::load(base(), nothing());
    assert_eq!(cfg.auth.private_key, "file-key");
    assert_eq!(cfg.auth.signature_type, 2);
    assert_eq!(cfg.database.url, "file-db");
    assert_eq!(cfg.telegram.bot_token, None);
    assert_eq!(cfg.telegram.chat_id.as_deref(), Some("file-chat"));
}

#[test]
fn environment_overrides_every_secret() {
    let mut env = nothing();
    env.private_key = Some("k".to_string());
    env.funder_address = Some("fa".to_string());
    env.signature_type = Some("0".to_string());
    env.clob_api_key = Some("a".to_string());
    env.clob_secret = Some("s".to_string());
    env.clob_passphrase = Some("p".to_string());
    env.database_url = Some("d".to_string());
    env.telegram_bot_token = Some("t".to_string());
    env.telegram_chat_id = Some("c".to_string());
    let cfg = Config::load(base(), env);
    assert_eq!(cfg.auth.private_key, "k");
    assert_eq!(cfg.auth.funder_address, "fa");
    assert_eq!(cfg.auth.signature_type, 0);
    assert_eq!(cfg.auth.clob_api_key, "a");
    assert_eq!(cfg.auth.clob_api_secret, "s");
    assert_eq!(cfg.auth.clob_api_passphrase, "p");
    assert_eq!(cfg.database.url, "d");
    assert_eq!(cfg.telegram.bot_token.as_deref(), Some("t"));
    assert_eq!(cfg.telegram.chat_id.as_deref(), Some("c"));
    assert_eq!(cfg.web.port, 8080);
}

#[test]
fn signature_type_follows_integer_parsing() {
    for s in ["0", "1", "2", "255", "256", "+7", "-1", "", "x", " 1", "007", "+", "99999999999999999999"] {
        let mut env = nothing();
        env.signature_type = Some(s.to_string());
        let cfg = Config::load(base(), env);
        assert_eq!(cfg.auth.signature_type, s.parse::<u8>().unwrap_or(1), "{s:?}");
    }
}

#[test]
fn port_comes_from_the_environment_where_it_is_one() {
    let web = WebConfig { enabled: true, port: 8080 };
    assert_eq!(web.effective_port(None), 8080);
    for s in ["0", "80", "65535", "65536", "+81", "-1", "", "http", "1 "] {
        assert_eq!(web.effective_port(Some(s)), s.parse::<u16>().unwrap_or(8080), "{s:?}");
    }
}

#[test]
fn the_database_is_tried_a_few_times() {
    assert_eq!(retry_after(1, 3), Some(2));
    assert_eq!(retry_after(3, 3), Some(2));
    assert_eq!(retry_after(4, 3), None);
    assert_eq!(retry_after(1, 0), None);
}
