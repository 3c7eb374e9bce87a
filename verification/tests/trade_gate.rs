use trend_arb::trade::gate::{
    ConnectionStatus, GateActionMode, GateApiError, GateLoginResponse, GateOrderSide, GateOrderType,
    GateResponseData, GateResponseHeader, GateTimeInForce, GateWebSocketResponse, GateWsTradeClient,
};
use trend_arb::trade::TradeError;

fn client() -> GateWsTradeClient {
    GateWsTradeClient::new("test_api_key".to_string(), "test_secret_key".to_string(), true)
}

fn header(status: &str) -> GateResponseHeader {
    GateResponseHeader {
        response_time: String::new(),
        status: status.to_string(),
        channel: "spot.login".to_string(),
        event: "api".to_string(),
        client_id: String::new(),
        x_in_time: 0,
        x_out_time: 0,
        conn_id: String::new(),
        conn_trace_id: String::new(),
        trace_id: String::new(),
        x_gate_ratelimit_requests_remain: None,
        x_gate_ratelimit_limit: None,
        x_gat_ratelimit_reset_timestamp: None,
    }
}

fn login_answer(status: &str, errs: Option<GateApiError>) -> GateWebSocketResponse<GateLoginResponse> {
    GateWebSocketResponse {
        request_id: "1-login".to_string(),
        header: header(status),
        data: GateResponseData { result: None, errs },
        ack: None,
    }
}

#[test]
fn gate_test_signature_generation() {
    let client = client();
    let timestamp = 1681984544u64;
    let signature = client.generate_login_signature(timestamp).unwrap();
    println!("Generated signature: {}", signature);
    assert!(!signature.is_empty());
    assert_eq!(signature.len(), 128);
}

#[test]
fn gate_login_signature_value() {
    let signature = client().generate_login_signature(1681984544).unwrap();
    assert_eq!(
        signature,
        "4ca100fd99902edadb38363ffa2f0eb2a435dd8448a0c39be7eed5ffa1e17715e608d6eae3340a56d6b6eb27595c53c5f6baf81f33384ad0cb5f3570b82bb88d"
    );
}

#[test]
fn gate_test_client_creation() {
    let client = client();
    assert_eq!(client.get_connection_status(), ConnectionStatus::Disconnected);
    assert!(!client.is_logged_in());
}

#[test]
fn test_order_side_conversion() {
    assert_eq!(GateOrderSide::Buy.as_str(), "buy");
    assert_eq!(GateOrderSide::Sell.as_str(), "sell");
}

#[test]
fn test_time_in_force_conversion() {
    assert_eq!(GateTimeInForce::Gtc.as_str(), "gtc");
    assert_eq!(GateTimeInForce::Ioc.as_str(), "ioc");
    assert_eq!(GateTimeInForce::Fok.as_str(), "fok");
    assert_eq!(GateTimeInForce::Poc.as_str(), "poc");
}

#[test]
fn gate_ws_url_by_network() {
    assert_eq!(client().ws_url(), "wss://ws-testnet.gate.com/v4/ws/spot");
    let live = GateWsTradeClient::new("k".to_string(), "s".to_string(), false);
    assert_eq!(live.ws_url(), "wss://api.gateio.ws/ws/v4/");
}

#[test]
fn gate_login_request_fields() {
    let q = client().login_request(1681984544, 1681984544123);
    assert_eq!(q.time, 1681984544);
    assert_eq!(q.channel, "spot.login");
    assert_eq!(q.event, "api");
    assert!(q.id.is_none());
    assert_eq!(q.payload.req_id, "1681984544123-login");
    assert_eq!(q.payload.api_key, "test_api_key");
    assert_eq!(q.payload.timestamp, "1681984544");
    assert_eq!(q.payload.signature, client().generate_login_signature(1681984544).unwrap());
    assert!(q.payload.req_header.is_none());
}

#[test]
fn gate_orders_refused_before_login() {
    let c = client();
    let r = c.limit_order_request("BTC_USDT", GateOrderSide::Buy, "50000", "0.001", None, None, None, 10, 10000);
    assert_eq!(r.err(), Some(TradeError::NotLoggedIn));
    let r = c.market_order_request("BTC_USDT", GateOrderSide::Buy, "0.001", None, None, 10, 10000);
    assert_eq!(r.err(), Some(TradeError::NotLoggedIn));
    assert_eq!(c.cancel_order_request("BTC_USDT", "1", None, 10, 10000).err(), Some(TradeError::NotLoggedIn));
    assert_eq!(c.order_status_request("BTC_USDT", "1", None, 10, 10000).err(), Some(TradeError::NotLoggedIn));
    assert_eq!(c.ensure_logged_in(), Err(TradeError::NotLoggedIn));
    assert_eq!(c.ensure_connected(), Err(TradeError::NotConnected));
}

#[test]
fn gate_login_answer_ok_then_orders() {
    let mut c = client();
    c.set_connection_status(ConnectionStatus::Connected);
    assert_eq!(c.ensure_connected(), Ok(()));
    assert_eq!(c.login_answered(&login_answer("200", None)), Ok(()));
    assert!(c.is_logged_in());
    assert_eq!(c.get_connection_status(), ConnectionStatus::LoggedIn);
    let q = c
        .limit_order_request("BTC_USDT", GateOrderSide::Buy, "50000.0", "0.001", None, None, None, 1700000000, 1700000000123)
        .unwrap();
    assert_eq!(q.channel, "spot.order_place");
    assert_eq!(q.event, "api");
    assert_eq!(q.time, 1700000000);
    assert_eq!(q.payload.req_id, "1700000000123-limit-order");
    assert_eq!(q.id, Some("1700000000123-limit-order".to_string()));
    let o = q.payload.req_param;
    assert_eq!(o.text, "limit-1700000000");
    assert_eq!(o.currency_pair, "BTC_USDT");
    assert_eq!(o.order_type, GateOrderType::Limit);
    assert_eq!(o.account, "spot");
    assert_eq!(o.side, GateOrderSide::Buy);
    assert_eq!(o.amount, "0.001");
    assert_eq!(o.price, "50000.0");
    assert_eq!(o.time_in_force, Some(GateTimeInForce::Gtc));
    assert_eq!(o.action_mode, Some(GateActionMode::Full));
    let m = c
        .market_order_request("ETH_USDT", GateOrderSide::Sell, "0.01", Some("my-market-001".to_string()), Some("margin"), 5, -3)
        .unwrap();
    assert_eq!(m.payload.req_id, "-3-market-order");
    assert_eq!(m.payload.req_param.text, "my-market-001");
    assert_eq!(m.payload.req_param.account, "margin");
    assert_eq!(m.payload.req_param.time_in_force, Some(GateTimeInForce::Ioc));
    let x = c.cancel_order_request("BTC_USDT", "order_id_123", None, 7, 8).unwrap();
    assert_eq!(x.channel, "spot.order_cancel");
    assert_eq!(x.payload.req_id, "8-cancel-order");
    assert_eq!(x.payload.req_param.order_id, "order_id_123");
    assert_eq!(x.payload.req_param.account, "spot");
    let st = c.order_status_request("BTC_USDT", "order_id_123", Some("cross_margin"), 7, 9).unwrap();
    assert_eq!(st.channel, "spot.order_status");
    assert_eq!(st.payload.req_id, "9-order-status");
    assert_eq!(st.payload.req_param.account, "cross_margin");
}

#[test]
fn gate_login_answer_errors() {
    let mut c = client();
    let e = GateApiError { label: "INVALID_KEY".to_string(), message: "bad key".to_string() };
    assert_eq!(
        c.login_answered(&login_answer("401", Some(e))),
        Err(TradeError::GateLogin { label: "INVALID_KEY".to_string(), message: "bad key".to_string() })
    );
    assert_eq!(c.login_answered(&login_answer("500", None)), Err(TradeError::GateLoginStatus("500".to_string())));
    assert!(!c.is_logged_in());
}

#[test]
fn gate_session_loop_and_connection_loss() {
    let mut c = client();
    c.set_connection_status(ConnectionStatus::Connected);
    c.login_answered(&login_answer("200", None)).unwrap();
    assert_eq!(c.session_finished(false), Ok(()));
    assert_eq!(c.get_connection_status(), ConnectionStatus::Reconnecting);
    assert!(!c.is_logged_in());
    assert_eq!(c.session_finished(true), Ok(()));
    c.connection_lost();
    assert_eq!(c.get_connection_status(), ConnectionStatus::Disconnected);
}

#[test]
fn gate_request_id_for_keeps_given_id() {
    let q = GateWsTradeClient::ping_request(5);
    assert_eq!(q.channel, "spot.ping");
    assert_eq!(q.event, "subscribe");
    assert_eq!(GateWsTradeClient::request_id_for(&q).unwrap().len(), 36);
    let mut c = client();
    c.set_connection_status(ConnectionStatus::Connected);
    c.login_answered(&login_answer("200", None)).unwrap();
    let q = c.cancel_order_request("A_B", "1", None, 1, 2).unwrap();
    assert_eq!(GateWsTradeClient::request_id_for(&q), Some("2-cancel-order".to_string()));
}

#[test]
fn gate_clock_stamped_requests() {
    let mut c = client();
    assert_eq!(
        c.limit_order_request_now("BTC_USDT", GateOrderSide::Buy, "1", "1", None, None, None).err(),
        Some(TradeError::NotLoggedIn)
    );
    let q = c.login_request_now().unwrap();
    assert!(q.time > 1_600_000_000);
    assert_eq!(q.payload.timestamp, q.time.to_string());
    assert_eq!(q.payload.signature, c.generate_login_signature(q.time).unwrap());
    assert!(q.payload.req_id.ends_with("-login"));
    c.set_connection_status(ConnectionStatus::Connected);
    c.login_answered(&login_answer("200", None)).unwrap();
    let m = c.market_order_request_now("BTC_USDT", GateOrderSide::Sell, "2", None, None).unwrap();
    assert_eq!(m.payload.req_param.text, format!("market-{}", m.time));
    assert!(m.payload.req_id.ends_with("-market-order"));
    let p = GateWsTradeClient::ping_request_now().unwrap();
    assert!(p.time > 1_600_000_000);
}

#[test]
fn gate_backoff_doubles_up_to_the_cap_and_limit_is_settable() {
    let mut c = client();
    assert_eq!(c.reconnect_delay_secs(), 1);
    c.set_max_reconnect_attempts(8);
    let mut waits = Vec::new();
    for _ in 0..8 {
        assert_eq!(c.session_finished(false), Ok(()));
        waits.push(c.reconnect_delay_secs());
    }
    assert_eq!(waits, vec![1, 2, 4, 8, 16, 32, 60, 60]);
    assert_eq!(c.session_finished(false), Err(TradeError::ReconnectLimit { attempts: 8 }));
    assert_eq!(c.session_finished(true), Ok(()));
    assert_eq!(c.reconnect_delay_secs(), 1);
    c.set_max_reconnect_attempts(0);
    assert_eq!(c.session_finished(false), Err(TradeError::ReconnectLimit { attempts: 0 }));
}
