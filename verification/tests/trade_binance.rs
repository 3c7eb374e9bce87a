use trend_arb::trade::binance::{
    BinanceWsTradeClient, BnbApiError, BnbNewOrderRespType, BnbOrderSide, BnbOrderType, BnbTimeInForce,
    BnbWebSocketResponse, ConnectionStatus, MAX_RECONNECT_ATTEMPTS,
};
use trend_arb::trade::TradeError;

fn client() -> BinanceWsTradeClient {
    BinanceWsTradeClient::new("test_api_key".to_string(), "test_secret_key".to_string(), true)
}

fn response(status: u16, error: Option<BnbApiError>) -> BnbWebSocketResponse<u32> {
    BnbWebSocketResponse { id: "x".to_string(), status, result: Some(7), error, rate_limits: None }
}

#[test]
fn binance_test_signature_generation() {
    let client = client();
    let query_string = "symbol=TRXUSDT&side=BUY&type=LIMIT&timeInForce=GTC&price=0.1&quantity=51&newOrderRespType=RESULT&apiKey=T65zTIdC9rZvdamYqAW4CKHN30xYYof1z1QsEoDKXLgZtCQyNPkq1Zj6nAG9tMJU&timestamp=1753941439500";
    let signature = client.generate_signature(query_string).unwrap();
    println!("Generated signature: {}", signature);
    assert!(!signature.is_empty());
    assert_eq!(signature.len(), 64);
}

#[test]
fn binance_signature_value() {
    let query_string = "symbol=TRXUSDT&side=BUY&type=LIMIT&timeInForce=GTC&price=0.1&quantity=51&newOrderRespType=RESULT&apiKey=T65zTIdC9rZvdamYqAW4CKHN30xYYof1z1QsEoDKXLgZtCQyNPkq1Zj6nAG9tMJU&timestamp=1753941439500";
    assert_eq!(
        client().generate_signature(query_string).unwrap(),
        "3994541653fcde198a0479992654b6359cb2d5aa0c939f5b45db734a7cd684fe"
    );
}

#[test]
fn binance_test_client_creation() {
    let client = client();
    assert_eq!(client.get_connection_status(), ConnectionStatus::Disconnected);
}

#[test]
fn binance_enum_wire_names() {
    assert_eq!(BnbOrderSide::Buy.as_str(), "BUY");
    assert_eq!(BnbOrderSide::Sell.as_str(), "SELL");
    assert_eq!(BnbTimeInForce::Gtc.as_str(), "GTC");
    assert_eq!(BnbTimeInForce::Ioc.as_str(), "IOC");
    assert_eq!(BnbTimeInForce::Fok.as_str(), "FOK");
}

#[test]
fn binance_limit_order_signed_over_sorted_query() {
    let c = BinanceWsTradeClient::new("key1".to_string(), "secret1".to_string(), false);
    let req = c.limit_order_request(
        "BTCUSDT",
        BnbOrderSide::Buy,
        "50000",
        "0.001",
        None,
        Some("my-1".to_string()),
        Some(5000),
        1700000000000,
    );
    assert_eq!(req.symbol, "BTCUSDT");
    assert_eq!(req.order_type, BnbOrderType::Limit);
    assert_eq!(req.time_in_force, BnbTimeInForce::Gtc);
    assert_eq!(req.new_order_resp_type, Some(BnbNewOrderRespType::Result));
    assert_eq!(req.api_key, "key1");
    assert_eq!(req.timestamp, 1700000000000);
    assert_eq!(req.recv_window, Some(5000));
    assert_eq!(req.new_client_order_id, Some("my-1".to_string()));
    assert_eq!(req.signature, "ab7339338542ac06175616829a7857c1a497cb60ce464f340b6e41057c65c0d0");
    let sorted_query = "apiKey=key1&newClientOrderId=my-1&newOrderRespType=RESULT&price=50000&quantity=0.001&recvWindow=5000&side=BUY&symbol=BTCUSDT&timeInForce=GTC&timestamp=1700000000000&type=LIMIT";
    assert_eq!(req.signature, c.generate_signature(sorted_query).unwrap());
}

#[test]
fn binance_market_order_by_quote_quantity() {
    let c = BinanceWsTradeClient::new("key1".to_string(), "secret1".to_string(), false);
    let req = c
        .market_order_request("BTCUSDT", BnbOrderSide::Sell, None, Some("45.0"), None, None, 1700000000000)
        .unwrap();
    assert_eq!(req.order_type, BnbOrderType::Market);
    assert_eq!(req.quantity, None);
    assert_eq!(req.quote_order_qty, Some("45.0".to_string()));
    assert_eq!(req.signature, "e8ef44b44dc99188e8df4199cb63b6d14e0767a07439f83d1651abf46a120bc6");
}

#[test]
fn binance_market_order_needs_a_quantity() {
    let c = client();
    let r = c.market_order_request("BTCUSDT", BnbOrderSide::Buy, None, None, None, None, 1);
    assert_eq!(r.err(), Some(TradeError::MissingMarketQuantity));
}

#[test]
fn binance_requests_only_when_connected() {
    let mut c = client();
    assert_eq!(c.prepare_request("order.place", 1u8).err(), Some(TradeError::NotConnected));
    c.set_connection_status(ConnectionStatus::Connected);
    let q = c.prepare_request("order.place", 1u8).unwrap();
    assert_eq!(q.method, "order.place");
    assert_eq!(q.params, 1u8);
    assert_eq!(q.id.len(), 36);
}

#[test]
fn binance_response_status_checked() {
    assert_eq!(BinanceWsTradeClient::check_response(response(200, None)).unwrap().result, Some(7));
    let e = BnbApiError { code: -1013, msg: "Filter failure".to_string() };
    assert_eq!(
        BinanceWsTradeClient::check_response(response(400, Some(e))).err(),
        Some(TradeError::BinanceApi { code: -1013, msg: "Filter failure".to_string() })
    );
    assert_eq!(BinanceWsTradeClient::check_response(response(429, None)).err(), Some(TradeError::RequestStatus(429)));
}

#[test]
fn binance_gives_up_after_limit() {
    let mut c = client();
    for _ in 0..MAX_RECONNECT_ATTEMPTS {
        assert_eq!(c.session_finished(false), Ok(()));
        assert_eq!(c.get_connection_status(), ConnectionStatus::Reconnecting);
    }
    assert_eq!(
        c.session_finished(false),
        Err(TradeError::ReconnectLimit { attempts: MAX_RECONNECT_ATTEMPTS })
    );
    assert_eq!(c.session_finished(true), Ok(()));
    assert_eq!(c.session_finished(false), Ok(()));
}

#[test]
fn binance_ws_url_by_network() {
    assert_eq!(client().ws_url(), "wss://ws-api.testnet.binance.vision/ws-api/v3");
    let live = BinanceWsTradeClient::new("k".to_string(), "s".to_string(), false);
    assert_eq!(live.ws_url(), "wss://ws-api.binance.com:443/ws-api/v3");
}

#[test]
fn binance_clock_stamped_order_signs_its_own_timestamp() {
    let c = BinanceWsTradeClient::new("key1".to_string(), "secret1".to_string(), false);
    let req = c.limit_order_request_now("BTCUSDT", BnbOrderSide::Buy, "50000", "0.001", Some(BnbTimeInForce::Ioc), None, None).unwrap();
    assert!(req.timestamp > 1_600_000_000_000);
    let query = format!(
        "apiKey=key1&newOrderRespType=RESULT&price=50000&quantity=0.001&side=BUY&symbol=BTCUSDT&timeInForce=IOC&timestamp={}&type=LIMIT",
        req.timestamp
    );
    assert_eq!(req.signature, c.generate_signature(&query).unwrap());
    assert_eq!(
        c.market_order_request_now("BTCUSDT", BnbOrderSide::Buy, None, None, None, None).err(),
        Some(TradeError::MissingMarketQuantity)
    );
}
