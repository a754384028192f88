use retirement::config::cli::Cli;
use retirement::config::settings::{AppConfig, OperationMode, TokenPairConfig};
use retirement::types::market::CryptoPair;

#[test]
fn token_pairs_by_name() {
    let btc = TokenPairConfig::from_name("BTC").unwrap();
    assert_eq!(btc.name, "btc");
    assert_eq!(btc.binance_symbol, "btcusdt");
    assert_eq!(btc.polymarket_slug_prefix, "btc-updown");
    let doge = TokenPairConfig::from_name("doge").unwrap();
    assert_eq!(doge.binance_symbol, "dogeusdt");
    assert_eq!(doge.polymarket_slug_prefix, "doge-updown");
    assert_eq!(TokenPairConfig::from_name("xrp").unwrap().binance_symbol, "xrpusdt");
    assert!(TokenPairConfig::from_name("ada").is_none());
    assert!(TokenPairConfig::from_name("").is_none());
    assert_eq!(CryptoPair::from_name("Sol"), Some(CryptoPair::Sol));
    assert_eq!(CryptoPair::Eth.slug_prefix(), "eth-updown");
}

#[test]
fn operation_modes_parse_and_display() {
    assert_eq!(OperationMode::from_str("live"), Ok(OperationMode::Live));
    assert_eq!(OperationMode::from_str("Simulate-Live"), Ok(OperationMode::SimulateLive));
    assert_eq!(OperationMode::from_str("simulate-persisted"), Ok(OperationMode::SimulatePersisted));
    assert_eq!(
        OperationMode::from_str("paper"),
        Err("Invalid mode 'paper'. Expected: live, simulate-live, simulate-persisted".to_string())
    );
    assert_eq!(OperationMode::SimulateLive.to_string(), "simulate-live");
    assert_eq!(OperationMode::Live.to_string(), "live");
}

fn cli(pairs: &[&str]) -> Cli {
    Cli {
        mode: OperationMode::SimulateLive,
        log_level: "debug".to_string(),
        pairs: pairs.iter().map(|p| p.to_string()).collect(),
    }
}

#[test]
fn app_config_from_cli() {
    let c = AppConfig::from_cli(&cli(&["btc", "ETH", "sol", "doge"])).unwrap();
    assert_eq!(c.mode, OperationMode::SimulateLive);
    assert_eq!(c.log_level, "debug");
    let names: Vec<&str> = c.pairs.iter().map(|p| p.name.as_str()).collect();
    assert_eq!(names, vec!["btc", "eth", "sol", "doge"]);
    assert_eq!(
        c.binance_symbols(),
        vec!["btcusdt".to_string(), "ethusdt".to_string(), "solusdt".to_string(), "dogeusdt".to_string()]
    );
}

#[test]
fn app_config_rejects_the_first_unknown_pair() {
    let e = AppConfig::from_cli(&cli(&["btc", "ada", "dot"])).unwrap_err();
    assert_eq!(e, "Unknown pair 'ada'. Supported: btc, eth, sol, doge");
    assert!(AppConfig::from_cli(&cli(&[])).unwrap().pairs.is_empty());
}
