use trend_arb::deepdata::binance_l1::BinanceL1DeepSocketClient;
use trend_arb::deepdata::gate_l1::GateL1DeepSocketClient;
use trend_arb::deepdata::utils::AtomicF64;
use trend_arb::deepdata::{is_silent, silenced_at, DepthSocketCurrencyPairs};
use std::sync::atomic::Ordering;

#[test]
fn binance_subscription_message() {
    assert_eq!(
        BinanceL1DeepSocketClient::sub_param("btcusdt", 7),
        r#"{"method":"SUBSCRIBE","params":["btcusdt@bookTicker"],"id":7}"#
    );
}

#[test]
fn binance_pool_settings() {
    let p = BinanceL1DeepSocketClient::new_pool();
    assert_eq!(p.market_code(), "Binance");
    assert_eq!(p.url(), "wss://stream.binance.com:9443/stream");
    assert_eq!(p.max_pairs_per_conn(), 150);
    assert_eq!(p.write_wait_time(), 300);
    assert!(p.is_deflate());
    let g = GateL1DeepSocketClient::new_pool();
    assert_eq!(g.market_code(), "Gate");
    assert_eq!(g.max_pairs_per_conn(), 100);
    assert_eq!(g.url(), "wss://spotws-private.gateapi.io/ws/v4/");
}

#[test]
fn quantity_decimal_places() {
    assert_eq!(BinanceL1DeepSocketClient::decimal_places("12.3400"), 4);
    assert_eq!(BinanceL1DeepSocketClient::decimal_places("12"), 0);
    assert_eq!(BinanceL1DeepSocketClient::decimal_places("0."), 0);
    assert_eq!(BinanceL1DeepSocketClient::decimal_places("1.25.7"), 2);
}

#[test]
fn silence_detection() {
    assert!(!is_silent(1000, 1060));
    assert!(is_silent(1000, 1061));
    let stopped = silenced_at(5000);
    assert_eq!(stopped, 4940);
    assert!(is_silent(stopped, 5001));
}

#[test]
fn price_cell_bits() {
    let c = AtomicF64::from_bits(1.5f64.to_bits());
    assert_eq!(f64::from_bits(c.load_bits(Ordering::Relaxed)), 1.5);
    c.store_bits(2.25f64.to_bits(), Ordering::Relaxed);
    assert_eq!(f64::from_bits(c.load_bits(Ordering::Relaxed)), 2.25);
}

#[test]
fn depth_pair_record() {
    let p = DepthSocketCurrencyPairs {
        market_code: "Binance",
        currency_code: "BTC".to_string(),
        currency_unit: "USDT".to_string(),
        symbol: "BTCUSDT".to_string(),
        socket_key: "btcusdt".to_string(),
        guid: "g".to_string(),
        last_data_time: 0,
        send_ping_pong_time: 0,
    };
    assert_eq!(p.clone().symbol, "BTCUSDT");
}

#[test]
fn utc_clock_reads_now() {
    let now = trend_arb::deepdata::get_current_time_secs().unwrap();
    assert!(now > 1_600_000_000);
    assert!(!is_silent(now, now));
}

#[test]
fn sell_quantity_keeps_buy_precision() {
    assert_eq!(BinanceL1DeepSocketClient::sell_quantity("12.34567"), Some("12.16048".to_string()));
    assert_eq!(BinanceL1DeepSocketClient::sell_quantity("100"), Some("98".to_string()));
    assert_eq!(BinanceL1DeepSocketClient::sell_quantity("1.20"), Some("1.18".to_string()));
    assert_eq!(BinanceL1DeepSocketClient::sell_quantity("10.00"), Some("9.85".to_string()));
}

#[test]
fn sell_quantity_refuses_nothing_to_sell() {
    assert_eq!(BinanceL1DeepSocketClient::sell_quantity("0.001"), None);
    assert_eq!(BinanceL1DeepSocketClient::sell_quantity("0"), None);
    assert_eq!(BinanceL1DeepSocketClient::sell_quantity("-5"), None);
    assert_eq!(BinanceL1DeepSocketClient::sell_quantity("abc"), None);
}
