use base64::Engine;
use trend_arb::trade::okx::{
    ConnectionStatus, OkxLoginResponse, OkxOrderSide, OkxOrderType, OkxPositionSide, OkxTradeMode,
    OkxWebSocketResponse, OkxWsTradeClient, LOGIN_POLLS,
};
use trend_arb::trade::TradeError;

fn client() -> OkxWsTradeClient {
    OkxWsTradeClient::new(
        "test_api_key".to_string(),
        "test_secret_key".to_string(),
        "test_passphrase".to_string(),
        true,
    )
}

fn login_answer(event: &str, code: &str) -> OkxLoginResponse {
    OkxLoginResponse { event: event.to_string(), code: code.to_string(), msg: String::new(), conn_id: None }
}

#[test]
fn okx_test_signature_generation() {
    let client = client();
    let message = "1640995200GET/users/self/verify";
    let signature = client.generate_signature(message).unwrap();
    println!("Generated signature: {}", signature);
    assert!(!signature.is_empty());
    assert!(base64::engine::general_purpose::STANDARD.decode(&signature).is_ok());
}

#[test]
fn okx_signature_value() {
    let signature = client().generate_signature("1640995200GET/users/self/verify").unwrap();
    assert_eq!(signature, "eIGHrB217IPBRBhMz5v4VJDdsotefR3T5+FpefYNg1w=");
}

#[test]
fn okx_test_client_creation() {
    let client = client();
    assert_eq!(client.get_connection_status(), ConnectionStatus::Disconnected);
}

#[test]
fn test_order_side_serialization() {
    assert_eq!(OkxOrderSide::Buy.as_str(), "buy");
    assert_eq!(OkxOrderSide::Sell.as_str(), "sell");
}

#[test]
fn test_order_type_serialization() {
    assert_eq!(OkxOrderType::Market.as_str(), "market");
    assert_eq!(OkxOrderType::Limit.as_str(), "limit");
    assert_eq!(OkxOrderType::PostOnly.as_str(), "post_only");
}

#[test]
fn test_trade_mode_serialization() {
    assert_eq!(OkxTradeMode::Cash.as_str(), "cash");
    assert_eq!(OkxTradeMode::Cross.as_str(), "cross");
    assert_eq!(OkxTradeMode::Isolated.as_str(), "isolated");
}

#[test]
fn okx_other_wire_names() {
    assert_eq!(OkxOrderType::Fok.as_str(), "fok");
    assert_eq!(OkxOrderType::Ioc.as_str(), "ioc");
    assert_eq!(OkxPositionSide::Net.as_str(), "net");
    assert_eq!(OkxPositionSide::Long.as_str(), "long");
    assert_eq!(OkxPositionSide::Short.as_str(), "short");
}

#[test]
fn okx_login_flow() {
    let mut c = client();
    c.set_connection_status(ConnectionStatus::Connected);
    let q = c.begin_login(1640995200);
    assert_eq!(c.get_connection_status(), ConnectionStatus::LoggingIn);
    assert_eq!(q.op, "login");
    assert_eq!(q.args.len(), 1);
    assert_eq!(q.args[0].api_key, "test_api_key");
    assert_eq!(q.args[0].passphrase, "test_passphrase");
    assert_eq!(q.args[0].timestamp, "1640995200");
    assert_eq!(q.args[0].sign, "eIGHrB217IPBRBhMz5v4VJDdsotefR3T5+FpefYNg1w=");
    assert_eq!(c.login_poll(1), None);
    assert_eq!(c.login_poll(LOGIN_POLLS), Some(Err(TradeError::OkxLoginTimeout)));
    assert!(!c.login_answered(&login_answer("subscribe", "0")));
    assert_eq!(c.get_connection_status(), ConnectionStatus::LoggingIn);
    assert!(c.login_answered(&login_answer("login", "0")));
    assert_eq!(c.get_connection_status(), ConnectionStatus::LoggedIn);
    assert_eq!(c.login_poll(3), Some(Ok(())));
}

#[test]
fn okx_login_refused() {
    let mut c = client();
    c.begin_login(1);
    assert!(c.login_answered(&login_answer("login", "60009")));
    assert_eq!(c.get_connection_status(), ConnectionStatus::Connected);
    assert_eq!(c.login_poll(2), Some(Err(TradeError::OkxLoginFailed)));
}

#[test]
fn okx_requests_only_after_login() {
    let mut c = client();
    let order = OkxWsTradeClient::limit_order_request(
        "BTC-USDT",
        OkxOrderSide::Buy,
        OkxTradeMode::Cash,
        "50000",
        "0.01",
        Some(OkxPositionSide::Net),
        Some("c1".to_string()),
        None,
        Some(false),
    );
    assert_eq!(c.prepare_request("order", order.clone()).err(), Some(TradeError::NotLoggedIn));
    c.set_connection_status(ConnectionStatus::LoggedIn);
    let q = c.prepare_request("order", order).unwrap();
    assert_eq!(q.op, "order");
    assert_eq!(q.id.len(), 36);
    let args = q.args.unwrap();
    assert_eq!(args.len(), 1);
    assert_eq!(args[0].inst_id, "BTC-USDT");
    assert_eq!(args[0].td_mode, "cash");
    assert_eq!(args[0].side, "buy");
    assert_eq!(args[0].ord_type, "limit");
    assert_eq!(args[0].sz, "0.01");
    assert_eq!(args[0].px, Some("50000".to_string()));
    assert_eq!(args[0].pos_side, Some("net".to_string()));
    assert_eq!(args[0].cl_ord_id, Some("c1".to_string()));
    assert_eq!(args[0].reduce_only, Some(false));
}

#[test]
fn okx_order_kinds() {
    let m = OkxWsTradeClient::market_order_request("ETH-USDT", OkxOrderSide::Sell, OkxTradeMode::Cross, "1", None, None, Some("t".to_string()), None);
    assert_eq!(m.ord_type, "market");
    assert_eq!(m.px, None);
    assert_eq!(m.pos_side, None);
    assert_eq!(m.tag, Some("t".to_string()));
    let p = OkxWsTradeClient::post_only_order_request("ETH-USDT", OkxOrderSide::Buy, OkxTradeMode::Isolated, "10", "1", Some(OkxPositionSide::Long), None, None, None);
    assert_eq!(p.ord_type, "post_only");
    assert_eq!(p.td_mode, "isolated");
    assert_eq!(p.px, Some("10".to_string()));
    assert_eq!(p.pos_side, Some("long".to_string()));
}

#[test]
fn okx_cancel_and_amend_checks() {
    assert_eq!(OkxWsTradeClient::cancel_order_request("X", None, None).err(), Some(TradeError::MissingOrderId));
    let c = OkxWsTradeClient::cancel_order_request("X", None, Some("c".to_string())).unwrap();
    assert_eq!(c.cl_ord_id, Some("c".to_string()));
    assert_eq!(
        OkxWsTradeClient::amend_order_request("X", None, None, Some("1".to_string()), None).err(),
        Some(TradeError::MissingOrderId)
    );
    assert_eq!(
        OkxWsTradeClient::amend_order_request("X", Some("1".to_string()), None, None, None).err(),
        Some(TradeError::MissingAmendment)
    );
    let a = OkxWsTradeClient::amend_order_request("X", Some("1".to_string()), None, None, Some("2".to_string())).unwrap();
    assert_eq!(a.new_px, Some("2".to_string()));
    assert_eq!(a.new_sz, None);
}

#[test]
fn okx_response_code_checked() {
    let ok: OkxWebSocketResponse<u8> = OkxWebSocketResponse {
        id: None,
        op: "order".to_string(),
        code: "0".to_string(),
        msg: String::new(),
        data: None,
        event: None,
        conn_id: None,
        in_time: None,
        out_time: None,
    };
    assert!(OkxWsTradeClient::check_response(ok.clone()).is_ok());
    let mut bad = ok;
    bad.code = "51000".to_string();
    bad.msg = "Parameter error".to_string();
    assert_eq!(
        OkxWsTradeClient::check_response(bad).err(),
        Some(TradeError::OkxApi { okx_code: "51000".to_string(), msg: "Parameter error".to_string() })
    );
}

#[test]
fn okx_clock_stamped_login() {
    let mut c = client();
    let q = c.begin_login_now().unwrap();
    assert_eq!(c.get_connection_status(), ConnectionStatus::LoggingIn);
    let ts = &q.args[0].timestamp;
    assert!(ts.parse::<u64>().unwrap() > 1_600_000_000);
    let expected = c.generate_signature(&format!("{}GET/users/self/verify", ts)).unwrap();
    assert_eq!(q.args[0].sign, expected);
}
