//! Binance spot trading over the websocket API: the request and response
//! types, the signed order parameters, and the client's connection state.
//!
//! An order is signed by sorting its parameters by key, joining them as
//! `key=value` with `&`, and taking the lower-case hexadecimal HMAC-SHA256 of
//! that text under the secret key.
use vstd::prelude::*;

use crate::clock::utc_now_millis;
use crate::crypto::{hex_encode, hex_lower, hmac_sha256, hmac_sha256_tag};
use crate::text::{decimal_string, str_bytes};
use super::{new_request_id, opt_decimal, opt_param, opt_str, query_bytes, query_string_bytes};
use super::{params_view, sort_params, sorted_by_key, ReconnectCounter, TradeError};

verus! {

/// Type of an order.
#[derive(Debug, Clone, Copy, PartialEq, Eq, Structural)]
pub enum BnbOrderType {
    Limit,
    Market,
}

/// Side of an order.
#[derive(Debug, Clone, Copy, PartialEq, Eq, Structural)]
pub enum BnbOrderSide {
    Buy,
    Sell,
}

impl BnbOrderSide {
    /// The wire name of the side.
    pub open spec fn wire_name(self) -> Seq<char> {
        match self {
            BnbOrderSide::Buy => "BUY"@,
            BnbOrderSide::Sell => "SELL"@,
        }
    }

    pub fn as_str(&self) -> (s: &'static str)
        ensures
            s@ == self.wire_name(),
    {
        match self {
            BnbOrderSide::Buy => "BUY",
            BnbOrderSide::Sell => "SELL",
        }
    }
}

/// How long an order stays active.
#[derive(Debug, Clone, Copy, PartialEq, Eq, Structural)]
pub enum BnbTimeInForce {
    /// Good till cancelled.
    Gtc,
    /// Immediate or cancel.
    Ioc,
    /// Fill or kill.
    Fok,
}

impl BnbTimeInForce {
    /// The wire name of the time in force.
    pub open spec fn wire_name(self) -> Seq<char> {
        match self {
            BnbTimeInForce::Gtc => "GTC"@,
            BnbTimeInForce::Ioc => "IOC"@,
            BnbTimeInForce::Fok => "FOK"@,
        }
    }

    pub fn as_str(&self) -> (s: &'static str)
        ensures
            s@ == self.wire_name(),
    {
        match self {
            BnbTimeInForce::Gtc => "GTC",
            BnbTimeInForce::Ioc => "IOC",
            BnbTimeInForce::Fok => "FOK",
        }
    }
}

/// How much the answer to a new order says.
#[derive(Debug, Clone, Copy, PartialEq, Eq, Structural)]
pub enum BnbNewOrderRespType {
    Ack,
    Result,
    Full,
}

/// The parameters of a limit order.
#[derive(Debug, Clone)]
pub struct BnbLimitOrderRequest {
    pub symbol: String,
    pub side: BnbOrderSide,
    pub order_type: BnbOrderType,
    pub time_in_force: BnbTimeInForce,
    pub price: String,
    pub quantity: String,
    pub new_client_order_id: Option<String>,
    pub new_order_resp_type: Option<BnbNewOrderRespType>,
    pub api_key: String,
    pub timestamp: u64,
    pub signature: String,
    pub recv_window: Option<u64>,
}

/// The parameters of a market order.
#[derive(Debug, Clone)]
pub struct BnbMarketOrderRequest {
    pub symbol: String,
    pub side: BnbOrderSide,
    pub order_type: BnbOrderType,
    pub quantity: Option<String>,
    pub quote_order_qty: Option<String>,
    pub new_client_order_id: Option<String>,
    pub new_order_resp_type: Option<BnbNewOrderRespType>,
    pub api_key: String,
    pub timestamp: u64,
    pub signature: String,
    pub recv_window: Option<u64>,
}

/// A request on the websocket: its id, its method and its parameters.
#[derive(Debug, Clone)]
pub struct BnbWebSocketRequest<T> {
    pub id: String,
    pub method: String,
    pub params: T,
}

/// What an order request answers about the order.
#[derive(Debug, Clone)]
pub struct BnbOrderResponse {
    pub symbol: String,
    pub order_id: u64,
    pub order_list_id: i64,
    pub client_order_id: String,
    pub transact_time: u64,
    pub price: Option<String>,
    pub orig_qty: String,
    pub executed_qty: String,
    pub orig_quote_order_qty: Option<String>,
    pub cummulative_quote_qty: String,
    pub status: String,
    pub time_in_force: Option<String>,
    pub order_type: String,
    pub side: String,
    pub working_time: Option<i64>,
    pub self_trade_prevention_mode: Option<String>,
    pub fills: Option<Vec<BnbFill>>,
}

/// One fill of an order.
#[derive(Debug, Clone)]
pub struct BnbFill {
    pub price: String,
    pub qty: String,
    pub commission: String,
    pub commission_asset: String,
    pub trade_id: i64,
}

/// A rate limit and how much of it is used.
#[derive(Debug, Clone)]
pub struct BnbRateLimit {
    pub rate_limit_type: String,
    pub interval: String,
    pub interval_num: u32,
    pub limit: u32,
    pub count: u32,
}

/// An answer on the websocket.
#[derive(Debug, Clone)]
pub struct BnbWebSocketResponse<T> {
    pub id: String,
    pub status: u16,
    pub result: Option<T>,
    pub error: Option<BnbApiError>,
    pub rate_limits: Option<Vec<BnbRateLimit>>,
}

/// An error reported by the API.
#[derive(Debug, Clone)]
pub struct BnbApiError {
    pub code: i32,
    pub msg: String,
}

/// State of the websocket connection.
#[derive(Debug, Clone, Copy, PartialEq, Eq, Structural)]
pub enum ConnectionStatus {
    Disconnected,
    Connecting,
    Connected,
    Reconnecting,
}

/// The parameters signed for a limit order, in the order they are listed
/// before sorting.
pub open spec fn limit_order_params(
    api_key: Seq<char>,
    symbol: Seq<char>,
    side: BnbOrderSide,
    price: Seq<char>,
    quantity: Seq<char>,
    time_in_force: BnbTimeInForce,
    client_order_id: Option<Seq<char>>,
    recv_window: Option<u64>,
    timestamp: u64,
) -> Seq<(Seq<char>, Seq<char>)> {
    seq![
        ("symbol"@, symbol),
        ("side"@, side.wire_name()),
        ("type"@, "LIMIT"@),
        ("timeInForce"@, time_in_force.wire_name()),
        ("price"@, price),
        ("quantity"@, quantity),
        ("newOrderRespType"@, "RESULT"@),
        ("apiKey"@, api_key),
        ("timestamp"@, crate::text::decimal_text(timestamp as nat)),
    ] + opt_param("newClientOrderId"@, client_order_id) + opt_param(
        "recvWindow"@,
        opt_decimal(recv_window),
    )
}

/// The parameters signed for a market order, in the order they are listed
/// before sorting.
pub open spec fn market_order_params(
    api_key: Seq<char>,
    symbol: Seq<char>,
    side: BnbOrderSide,
    quantity: Option<Seq<char>>,
    quote_order_qty: Option<Seq<char>>,
    client_order_id: Option<Seq<char>>,
    recv_window: Option<u64>,
    timestamp: u64,
) -> Seq<(Seq<char>, Seq<char>)> {
    seq![
        ("symbol"@, symbol),
        ("side"@, side.wire_name()),
        ("type"@, "MARKET"@),
        ("newOrderRespType"@, "RESULT"@),
        ("apiKey"@, api_key),
        ("timestamp"@, crate::text::decimal_text(timestamp as nat)),
    ] + opt_param("quantity"@, quantity) + opt_param("quoteOrderQty"@, quote_order_qty)
        + opt_param("newClientOrderId"@, client_order_id) + opt_param(
        "recvWindow"@,
        opt_decimal(recv_window),
    )
}

/// The signature of parameters: the hexadecimal HMAC-SHA256, under the
/// secret, of the parameters sorted by key and joined as `k=v&k=v`.
pub open spec fn params_signature(secret: Seq<char>, params: Seq<(Seq<char>, Seq<char>)>) -> Seq<char> {
    hex_lower(hmac_sha256(str_bytes(secret), query_bytes(sorted_by_key(params))))
}

/// Parameters signed and sent are found among the sorted ones.
proof fn lemma_sorted_keeps(p: Seq<(Seq<char>, Seq<char>)>, x: (Seq<char>, Seq<char>))
    requires
        p.contains(x),
    ensures
        sorted_by_key(p).contains(x),
        sorted_by_key(p).len() == p.len(),
{
    broadcast use vstd::seq_lib::group_to_multiset_ensures;

    super::lemma_sorted_by_key(p);
    assert(p.to_multiset().count(x) > 0);
    assert(sorted_by_key(p).to_multiset().len() == p.to_multiset().len());
}

/// Law: a market order signs every parameter it carries, and no other: the
/// signature is the hexadecimal HMAC-SHA256, under the secret, of a query
/// whose parameters come in ascending key order and are exactly the
/// symbol, side, type `MARKET`, answer type `RESULT`, API key and timestamp
/// of the request, plus its quantity, quote quantity, client order id and
/// receive window when it has them.
pub proof fn lemma_market_order_signs_its_fields(
    c: BinanceWsTradeClient,
    req: BnbMarketOrderRequest,
    symbol: Seq<char>,
    side: BnbOrderSide,
    quantity: Option<Seq<char>>,
    quote_order_qty: Option<Seq<char>>,
    client_order_id: Option<String>,
    recv_window: Option<u64>,
    timestamp: u64,
)
    requires
        c.is_market_order(req, symbol, side, quantity, quote_order_qty, client_order_id, recv_window, timestamp),
    ensures
        ({
            let signed = sorted_by_key(
                market_order_params(
                    c.api_key_text(),
                    symbol,
                    side,
                    quantity,
                    quote_order_qty,
                    super::opt_text(client_order_id),
                    recv_window,
                    timestamp,
                ),
            );
            &&& req.signature@ == hex_lower(hmac_sha256(str_bytes(c.secret_text()), query_bytes(signed)))
            &&& super::keys_sorted(signed)
            &&& signed.contains(("symbol"@, req.symbol@))
            &&& signed.contains(("side"@, req.side.wire_name()))
            &&& signed.contains(("type"@, "MARKET"@))
            &&& signed.contains(("newOrderRespType"@, "RESULT"@))
            &&& signed.contains(("apiKey"@, req.api_key@))
            &&& signed.contains(("timestamp"@, crate::text::decimal_text(req.timestamp as nat)))
            &&& (req.quantity matches Some(q) ==> signed.contains(("quantity"@, q@)))
            &&& (req.quote_order_qty matches Some(q) ==> signed.contains(("quoteOrderQty"@, q@)))
            &&& (req.new_client_order_id matches Some(q) ==> signed.contains(("newClientOrderId"@, q@)))
            &&& (req.recv_window matches Some(w) ==> signed.contains(
                ("recvWindow"@, crate::text::decimal_text(w as nat)),
            ))
            &&& signed.len() == 6 + (if req.quantity is Some { 1int } else { 0 }) + (if req.quote_order_qty is Some {
                1int
            } else {
                0
            }) + (if req.new_client_order_id is Some { 1int } else { 0 }) + (if req.recv_window is Some {
                1int
            } else {
                0
            })
        }),
{
    let o1 = opt_param("quantity"@, quantity);
    let o2 = opt_param("quoteOrderQty"@, quote_order_qty);
    let o3 = opt_param("newClientOrderId"@, super::opt_text(client_order_id));
    let o4 = opt_param("recvWindow"@, opt_decimal(recv_window));
    let base = seq![
        ("symbol"@, symbol),
        ("side"@, side.wire_name()),
        ("type"@, "MARKET"@),
        ("newOrderRespType"@, "RESULT"@),
        ("apiKey"@, c.api_key_text()),
        ("timestamp"@, crate::text::decimal_text(timestamp as nat)),
    ];
    let p = market_order_params(
        c.api_key_text(),
        symbol,
        side,
        quantity,
        quote_order_qty,
        super::opt_text(client_order_id),
        recv_window,
        timestamp,
    );
    assert(p == base + o1 + o2 + o3 + o4);
    super::lemma_sorted_by_key(p);
    lemma_sorted_keeps(p, p[0]);
    lemma_sorted_keeps(p, p[1]);
    lemma_sorted_keeps(p, p[2]);
    lemma_sorted_keeps(p, p[3]);
    lemma_sorted_keeps(p, p[4]);
    lemma_sorted_keeps(p, p[5]);
    if quantity is Some {
        lemma_sorted_keeps(p, p[6]);
    }
    if quote_order_qty is Some {
        lemma_sorted_keeps(p, p[(6 + o1.len()) as int]);
    }
    if client_order_id is Some {
        lemma_sorted_keeps(p, p[(6 + o1.len() + o2.len()) as int]);
    }
    if recv_window is Some {
        lemma_sorted_keeps(p, p[(6 + o1.len() + o2.len() + o3.len()) as int]);
    }
}

/// Law: a limit order signs every parameter it carries, and no other: the
/// signature is the hexadecimal HMAC-SHA256, under the secret, of a query
/// whose parameters come in ascending key order and are exactly the
/// symbol, side, type `LIMIT`, time in force, price, quantity, answer type
/// `RESULT`, API key and timestamp of the request, plus its client order id
/// and receive window when it has them.
pub proof fn lemma_limit_order_signs_its_fields(
    c: BinanceWsTradeClient,
    req: BnbLimitOrderRequest,
    symbol: Seq<char>,
    side: BnbOrderSide,
    price: Seq<char>,
    quantity: Seq<char>,
    time_in_force: Option<BnbTimeInForce>,
    client_order_id: Option<String>,
    recv_window: Option<u64>,
    timestamp: u64,
)
    requires
        c.is_limit_order(req, symbol, side, price, quantity, time_in_force, client_order_id, recv_window, timestamp),
    ensures
        ({
            let signed = sorted_by_key(
                limit_order_params(
                    c.api_key_text(),
                    symbol,
                    side,
                    price,
                    quantity,
                    req.time_in_force,
                    super::opt_text(client_order_id),
                    recv_window,
                    timestamp,
                ),
            );
            &&& req.signature@ == hex_lower(hmac_sha256(str_bytes(c.secret_text()), query_bytes(signed)))
            &&& super::keys_sorted(signed)
            &&& signed.contains(("symbol"@, req.symbol@))
            &&& signed.contains(("side"@, req.side.wire_name()))
            &&& signed.contains(("type"@, "LIMIT"@))
            &&& signed.contains(("timeInForce"@, req.time_in_force.wire_name()))
            &&& signed.contains(("price"@, req.price@))
            &&& signed.contains(("quantity"@, req.quantity@))
            &&& signed.contains(("newOrderRespType"@, "RESULT"@))
            &&& signed.contains(("apiKey"@, req.api_key@))
            &&& signed.contains(("timestamp"@, crate::text::decimal_text(req.timestamp as nat)))
            &&& (req.new_client_order_id matches Some(q) ==> signed.contains(("newClientOrderId"@, q@)))
            &&& (req.recv_window matches Some(w) ==> signed.contains(
                ("recvWindow"@, crate::text::decimal_text(w as nat)),
            ))
            &&& signed.len() == 9 + (if req.new_client_order_id is Some { 1int } else { 0 }) + (
            if req.recv_window is Some {
                1int
            } else {
                0
            })
        }),
{
    let o3 = opt_param("newClientOrderId"@, super::opt_text(client_order_id));
    let o4 = opt_param("recvWindow"@, opt_decimal(recv_window));
    let p = limit_order_params(
        c.api_key_text(),
        symbol,
        side,
        price,
        quantity,
        req.time_in_force,
        super::opt_text(client_order_id),
        recv_window,
        timestamp,
    );
    super::lemma_sorted_by_key(p);
    lemma_sorted_keeps(p, p[0]);
    lemma_sorted_keeps(p, p[1]);
    lemma_sorted_keeps(p, p[2]);
    lemma_sorted_keeps(p, p[3]);
    lemma_sorted_keeps(p, p[4]);
    lemma_sorted_keeps(p, p[5]);
    lemma_sorted_keeps(p, p[6]);
    lemma_sorted_keeps(p, p[7]);
    lemma_sorted_keeps(p, p[8]);
    if client_order_id is Some {
        lemma_sorted_keeps(p, p[9]);
    }
    if recv_window is Some {
        lemma_sorted_keeps(p, p[(9 + o3.len()) as int]);
    }
}

/// The state of a Binance trading client: its credentials, the network it
/// uses, the state of its websocket and its count of failed connections.
pub struct BinanceWsTradeClient {
    api_key: String,
    secret_key: String,
    testnet: bool,
    connection_status: ConnectionStatus,
    reconnect: ReconnectCounter,
}

/// Consecutive failed connections after which the client gives up.
pub const MAX_RECONNECT_ATTEMPTS: u32 = 10;

/// Seconds between two connection attempts.
pub const RECONNECT_DELAY_SECS: u64 = 5;

impl BinanceWsTradeClient {
    /// The API key.
    pub closed spec fn api_key_text(&self) -> Seq<char> {
        self.api_key@
    }

    /// The secret key.
    pub closed spec fn secret_text(&self) -> Seq<char> {
        self.secret_key@
    }

    /// Whether the client uses the test network.
    pub closed spec fn on_testnet(&self) -> bool {
        self.testnet
    }

    /// The state of the websocket.
    pub closed spec fn status(&self) -> ConnectionStatus {
        self.connection_status
    }

    /// The count of failed connections.
    pub closed spec fn reconnects(&self) -> ReconnectCounter {
        self.reconnect
    }

    /// A disconnected client with no failed connection counted.
    pub fn new(api_key: String, secret_key: String, testnet: bool) -> (c: Self)
        ensures
            c.api_key_text() == api_key@,
            c.secret_text() == secret_key@,
            c.on_testnet() == testnet,
            c.status() == ConnectionStatus::Disconnected,
            c.reconnects().count() == 0,
            c.reconnects().limit() == MAX_RECONNECT_ATTEMPTS,
    {
        BinanceWsTradeClient {
            api_key,
            secret_key,
            testnet,
            connection_status: ConnectionStatus::Disconnected,
            reconnect: ReconnectCounter::new(MAX_RECONNECT_ATTEMPTS),
        }
    }

    /// The state of the websocket.
    pub fn get_connection_status(&self) -> (s: ConnectionStatus)
        ensures
            s == self.status(),
    {
        self.connection_status
    }

    /// Records a new state of the websocket.
    pub fn set_connection_status(&mut self, status: ConnectionStatus)
        ensures
            final(self).status() == status,
            final(self).api_key_text() == old(self).api_key_text(),
            final(self).secret_text() == old(self).secret_text(),
            final(self).on_testnet() == old(self).on_testnet(),
            final(self).reconnects() == old(self).reconnects(),
    {
        self.connection_status = status;
    }

    /// The address of the websocket API on the network the client uses.
    pub fn ws_url(&self) -> (u: &'static str)
        ensures
            u@ == (if self.on_testnet() {
                "wss://ws-api.testnet.binance.vision/ws-api/v3"@
            } else {
                "wss://ws-api.binance.com:443/ws-api/v3"@
            }),
    {
        if self.testnet {
            "wss://ws-api.testnet.binance.vision/ws-api/v3"
        } else {
            "wss://ws-api.binance.com:443/ws-api/v3"
        }
    }

    /// The end of one connection session. A success starts the count of
    /// failures again; a failure is counted, and within the limit the client
    /// is marked reconnecting and tries again, beyond it the client gives up.
    pub fn session_finished(&mut self, succeeded: bool) -> (r: Result<(), TradeError>)
        ensures
            final(self).api_key_text() == old(self).api_key_text(),
            final(self).secret_text() == old(self).secret_text(),
            final(self).on_testnet() == old(self).on_testnet(),
            final(self).reconnects().limit() == old(self).reconnects().limit(),
            succeeded ==> r is Ok && final(self).reconnects().count() == 0 && final(self).status()
                == old(self).status(),
            !succeeded ==> final(self).reconnects().count() == super::next_failure_count(
                old(self).reconnects().count() as int,
                old(self).reconnects().limit() as int,
            ),
            !succeeded && final(self).reconnects().count() <= final(self).reconnects().limit() ==> r
                is Ok && final(self).status() == ConnectionStatus::Reconnecting,
            !succeeded && final(self).reconnects().count() > final(self).reconnects().limit() ==> r
                == Err::<(), TradeError>(
                TradeError::ReconnectLimit { attempts: old(self).reconnects().limit() },
            ) && final(self).status() == old(self).status(),
    {
        if succeeded {
            self.reconnect.on_connected();
            return Ok(());
        }
        let retry = self.reconnect.on_failure();
        if !retry {
            return Err(TradeError::ReconnectLimit { attempts: self.reconnect.max_reconnect_attempts() });
        }
        self.connection_status = ConnectionStatus::Reconnecting;
        Ok(())
    }

    /// Requests go out only on a connected websocket.
    pub fn ensure_connected(&self) -> (r: Result<(), TradeError>)
        ensures
            r is Ok <==> self.status() == ConnectionStatus::Connected,
            r is Err ==> r == Err::<(), TradeError>(TradeError::NotConnected),
    {
        if self.connection_status == ConnectionStatus::Connected {
            Ok(())
        } else {
            Err(TradeError::NotConnected)
        }
    }

    /// A request for `method` with `params` and a fresh random id, when the
    /// websocket is connected and the system's random source answers.
    pub fn prepare_request<T>(&self, method: &str, params: T) -> (r: Result<
        BnbWebSocketRequest<T>,
        TradeError,
    >)
        ensures
            self.status() != ConnectionStatus::Connected ==> r == Err::<BnbWebSocketRequest<T>, TradeError>(
                TradeError::NotConnected,
            ),
            self.status() == ConnectionStatus::Connected ==> (r is Ok || r == Err::<
                BnbWebSocketRequest<T>,
                TradeError,
            >(TradeError::RandomUnavailable)),
            r matches Ok(q) ==> q.method@ == method@ && q.params == params && q.id@.len() == 36,
    {
        if self.connection_status != ConnectionStatus::Connected {
            return Err(TradeError::NotConnected);
        }
        let id = match new_request_id() {
            Some(i) => i,
            None => return Err(TradeError::RandomUnavailable),
        };
        Ok(BnbWebSocketRequest { id, method: method.to_string(), params })
    }

    /// An answer with status 200 is passed on; any other is an error, the
    /// API's own when the answer carries one.
    pub fn check_response<T>(response: BnbWebSocketResponse<T>) -> (r: Result<
        BnbWebSocketResponse<T>,
        TradeError,
    >)
        ensures
            response.status == 200 ==> r == Ok::<BnbWebSocketResponse<T>, TradeError>(response),
            response.status != 200 ==> r == Err::<BnbWebSocketResponse<T>, TradeError>(
                match response.error {
                    Some(e) => TradeError::BinanceApi { code: e.code, msg: e.msg },
                    None => TradeError::RequestStatus(response.status),
                },
            ),
    {
        if response.status != 200 {
            match response.error {
                Some(e) => Err(TradeError::BinanceApi { code: e.code, msg: e.msg }),
                None => Err(TradeError::RequestStatus(response.status)),
            }
        } else {
            Ok(response)
        }
    }

    /// Hexadecimal HMAC-SHA256 of `msg` under the secret key.
    fn sign(&self, msg: &Vec<u8>) -> (s: String)
        ensures
            s@ == hex_lower(hmac_sha256(str_bytes(self.secret_text()), msg@)),
    {
        let tag = match hmac_sha256_tag(self.secret_key.as_str().as_bytes(), msg.as_slice()) {
            Ok(t) => t,
            Err(_) => Vec::new(),
        };
        hex_encode(tag.as_slice())
    }

    /// The signature of a query string: hexadecimal HMAC-SHA256 under the
    /// secret key. It never fails: the MAC takes keys of any length.
    pub fn generate_signature(&self, query_string: &str) -> (r: Result<String, TradeError>)
        ensures
            r is Ok,
            r->Ok_0@ == hex_lower(hmac_sha256(str_bytes(self.secret_text()), str_bytes(query_string@))),
            r->Ok_0@.len() == 64,
    {
        let tag = match hmac_sha256_tag(self.secret_key.as_str().as_bytes(), query_string.as_bytes()) {
            Ok(t) => t,
            Err(_) => return Err(TradeError::InvalidKeyLength),
        };
        proof {
            crate::crypto::lemma_hex_lower_len(tag@);
        }
        Ok(hex_encode(tag.as_slice()))
    }

    /// True when `req` is the signed limit order described by the
    /// arguments, stamped `timestamp` (milliseconds). The time in force is
    /// good-till-cancelled unless given, and the answer asked for is `RESULT`.
    pub open spec fn is_limit_order(
        &self,
        req: BnbLimitOrderRequest,
        symbol: Seq<char>,
        side: BnbOrderSide,
        price: Seq<char>,
        quantity: Seq<char>,
        time_in_force: Option<BnbTimeInForce>,
        client_order_id: Option<String>,
        recv_window: Option<u64>,
        timestamp: u64,
    ) -> bool {
        &&& req.symbol@ == symbol
        &&& req.side == side
        &&& req.order_type == BnbOrderType::Limit
        &&& req.time_in_force == (match time_in_force {
            Some(t) => t,
            None => BnbTimeInForce::Gtc,
        })
        &&& req.price@ == price
        &&& req.quantity@ == quantity
        &&& req.new_client_order_id == client_order_id
        &&& req.new_order_resp_type == Some(BnbNewOrderRespType::Result)
        &&& req.api_key@ == self.api_key_text()
        &&& req.timestamp == timestamp
        &&& req.recv_window == recv_window
        &&& req.signature@ == params_signature(
            self.secret_text(),
            limit_order_params(
                self.api_key_text(),
                symbol,
                side,
                price,
                quantity,
                req.time_in_force,
                super::opt_text(client_order_id),
                recv_window,
                timestamp,
            ),
        )
    }

    /// True when `req` is the signed market order described by the
    /// arguments, stamped `timestamp` (milliseconds); the answer asked for is
    /// `RESULT`.
    pub open spec fn is_market_order(
        &self,
        req: BnbMarketOrderRequest,
        symbol: Seq<char>,
        side: BnbOrderSide,
        quantity: Option<Seq<char>>,
        quote_order_qty: Option<Seq<char>>,
        client_order_id: Option<String>,
        recv_window: Option<u64>,
        timestamp: u64,
    ) -> bool {
        &&& req.symbol@ == symbol
        &&& req.side == side
        &&& req.order_type == BnbOrderType::Market
        &&& super::opt_text(req.quantity) == quantity
        &&& super::opt_text(req.quote_order_qty) == quote_order_qty
        &&& req.new_client_order_id == client_order_id
        &&& req.new_order_resp_type == Some(BnbNewOrderRespType::Result)
        &&& req.api_key@ == self.api_key_text()
        &&& req.timestamp == timestamp
        &&& req.recv_window == recv_window
        &&& req.signature@ == params_signature(
            self.secret_text(),
            market_order_params(
                self.api_key_text(),
                symbol,
                side,
                quantity,
                quote_order_qty,
                super::opt_text(client_order_id),
                recv_window,
                timestamp,
            ),
        )
    }

    /// A signed limit order stamped with the clock (milliseconds since the
    /// Unix epoch); refused when the clock reads before the epoch.
    pub fn limit_order_request_now(
        &self,
        symbol: &str,
        side: BnbOrderSide,
        price: &str,
        quantity: &str,
        time_in_force: Option<BnbTimeInForce>,
        client_order_id: Option<String>,
        recv_window: Option<u64>,
    ) -> (r: Result<BnbLimitOrderRequest, TradeError>)
        ensures
            r is Err ==> r == Err::<BnbLimitOrderRequest, TradeError>(TradeError::ClockUnavailable),
            r matches Ok(req) ==> self.is_limit_order(
                req,
                symbol@,
                side,
                price@,
                quantity@,
                time_in_force,
                client_order_id,
                recv_window,
                req.timestamp,
            ),
    {
        let timestamp = match utc_now_millis() {
            Some(ms) => ms as u64,
            None => return Err(TradeError::ClockUnavailable),
        };
        Ok(self.limit_order_request(symbol, side, price, quantity, time_in_force, client_order_id, recv_window, timestamp))
    }

    /// A signed market order stamped with the clock (milliseconds since the
    /// Unix epoch); refused without a quantity of either kind, and when the
    /// clock reads before the epoch.
    pub fn market_order_request_now(
        &self,
        symbol: &str,
        side: BnbOrderSide,
        quantity: Option<&str>,
        quote_order_qty: Option<&str>,
        client_order_id: Option<String>,
        recv_window: Option<u64>,
    ) -> (r: Result<BnbMarketOrderRequest, TradeError>)
        ensures
            quantity is None && quote_order_qty is None ==> r == Err::<BnbMarketOrderRequest, TradeError>(
                TradeError::MissingMarketQuantity,
            ),
            !(quantity is None && quote_order_qty is None) ==> (r is Ok || r == Err::<
                BnbMarketOrderRequest,
                TradeError,
            >(TradeError::ClockUnavailable)),
            r matches Ok(req) ==> self.is_market_order(
                req,
                symbol@,
                side,
                opt_str(quantity),
                opt_str(quote_order_qty),
                client_order_id,
                recv_window,
                req.timestamp,
            ),
    {
        if quantity.is_none() && quote_order_qty.is_none() {
            return Err(TradeError::MissingMarketQuantity);
        }
        let timestamp = match utc_now_millis() {
            Some(ms) => ms as u64,
            None => return Err(TradeError::ClockUnavailable),
        };
        self.market_order_request(symbol, side, quantity, quote_order_qty, client_order_id, recv_window, timestamp)
    }

    /// A signed limit order at `timestamp` (milliseconds). The time in force
    /// is good-till-cancelled unless given, and the answer asked for is
    /// `RESULT`.
    pub fn limit_order_request(
        &self,
        symbol: &str,
        side: BnbOrderSide,
        price: &str,
        quantity: &str,
        time_in_force: Option<BnbTimeInForce>,
        client_order_id: Option<String>,
        recv_window: Option<u64>,
        timestamp: u64,
    ) -> (req: BnbLimitOrderRequest)
        ensures
            self.is_limit_order(
                req,
                symbol@,
                side,
                price@,
                quantity@,
                time_in_force,
                client_order_id,
                recv_window,
                timestamp,
            ),
    {
        let tif = match time_in_force {
            Some(t) => t,
            None => BnbTimeInForce::Gtc,
        };
        let mut params: Vec<(&str, String)> = Vec::new();
        params.push(("symbol", symbol.to_string()));
        params.push(("side", side.as_str().to_string()));
        params.push(("type", "LIMIT".to_string()));
        params.push(("timeInForce", tif.as_str().to_string()));
        params.push(("price", price.to_string()));
        params.push(("quantity", quantity.to_string()));
        params.push(("newOrderRespType", "RESULT".to_string()));
        params.push(("apiKey", self.api_key.clone()));
        params.push(("timestamp", decimal_string(timestamp)));
        let ghost base = params_view(params@);
        match &client_order_id {
            Some(id) => params.push(("newClientOrderId", id.clone())),
            None => {},
        }
        let ghost with_id = params_view(params@);
        match recv_window {
            Some(w) => params.push(("recvWindow", decimal_string(w))),
            None => {},
        }
        proof {
            assert(with_id == base + opt_param("newClientOrderId"@, super::opt_text(client_order_id)));
            assert(params_view(params@) == with_id + opt_param("recvWindow"@, opt_decimal(recv_window)));
            assert(base == seq![
                ("symbol"@, symbol@),
                ("side"@, side.wire_name()),
                ("type"@, "LIMIT"@),
                ("timeInForce"@, tif.wire_name()),
                ("price"@, price@),
                ("quantity"@, quantity@),
                ("newOrderRespType"@, "RESULT"@),
                ("apiKey"@, self.api_key@),
                ("timestamp"@, crate::text::decimal_text(timestamp as nat)),
            ]);
        }
        let sorted = sort_params(params);
        let query = query_string_bytes(&sorted);
        let signature = self.sign(&query);
        BnbLimitOrderRequest {
            symbol: symbol.to_string(),
            side,
            order_type: BnbOrderType::Limit,
            time_in_force: tif,
            price: price.to_string(),
            quantity: quantity.to_string(),
            new_client_order_id: client_order_id,
            new_order_resp_type: Some(BnbNewOrderRespType::Result),
            api_key: self.api_key.clone(),
            timestamp,
            signature,
            recv_window,
        }
    }

    /// A signed market order at `timestamp` (milliseconds), for a base
    /// quantity, a quote quantity, or both; with neither it is refused.
    pub fn market_order_request(
        &self,
        symbol: &str,
        side: BnbOrderSide,
        quantity: Option<&str>,
        quote_order_qty: Option<&str>,
        client_order_id: Option<String>,
        recv_window: Option<u64>,
        timestamp: u64,
    ) -> (r: Result<BnbMarketOrderRequest, TradeError>)
        ensures
            r is Err <==> quantity is None && quote_order_qty is None,
            r is Err ==> r == Err::<BnbMarketOrderRequest, TradeError>(
                TradeError::MissingMarketQuantity,
            ),
            r matches Ok(req) ==> self.is_market_order(
                req,
                symbol@,
                side,
                opt_str(quantity),
                opt_str(quote_order_qty),
                client_order_id,
                recv_window,
                timestamp,
            ),
    {
        if quantity.is_none() && quote_order_qty.is_none() {
            return Err(TradeError::MissingMarketQuantity);
        }
        let mut params: Vec<(&str, String)> = Vec::new();
        params.push(("symbol", symbol.to_string()));
        params.push(("side", side.as_str().to_string()));
        params.push(("type", "MARKET".to_string()));
        params.push(("newOrderRespType", "RESULT".to_string()));
        params.push(("apiKey", self.api_key.clone()));
        params.push(("timestamp", decimal_string(timestamp)));
        let ghost p0 = params_view(params@);
        match quantity {
            Some(q) => params.push(("quantity", q.to_string())),
            None => {},
        }
        let ghost p1 = params_view(params@);
        match quote_order_qty {
            Some(q) => params.push(("quoteOrderQty", q.to_string())),
            None => {},
        }
        let ghost p2 = params_view(params@);
        match &client_order_id {
            Some(id) => params.push(("newClientOrderId", id.clone())),
            None => {},
        }
        let ghost p3 = params_view(params@);
        match recv_window {
            Some(w) => params.push(("recvWindow", decimal_string(w))),
            None => {},
        }
        proof {
            assert(p1 == p0 + opt_param("quantity"@, opt_str(quantity)));
            assert(p2 == p1 + opt_param("quoteOrderQty"@, opt_str(quote_order_qty)));
            assert(p3 == p2 + opt_param("newClientOrderId"@, super::opt_text(client_order_id)));
            assert(params_view(params@) == p3 + opt_param("recvWindow"@, opt_decimal(recv_window)));
            assert(p0 == seq![
                ("symbol"@, symbol@),
                ("side"@, side.wire_name()),
                ("type"@, "MARKET"@),
                ("newOrderRespType"@, "RESULT"@),
                ("apiKey"@, self.api_key@),
                ("timestamp"@, crate::text::decimal_text(timestamp as nat)),
            ]);
        }
        let sorted = sort_params(params);
        let query = query_string_bytes(&sorted);
        let signature = self.sign(&query);
        let quantity_text = match quantity {
            Some(q) => Some(q.to_string()),
            None => None,
        };
        let quote_text = match quote_order_qty {
            Some(q) => Some(q.to_string()),
            None => None,
        };
        Ok(
            BnbMarketOrderRequest {
                symbol: symbol.to_string(),
                side,
                order_type: BnbOrderType::Market,
                quantity: quantity_text,
                quote_order_qty: quote_text,
                new_client_order_id: client_order_id,
                new_order_resp_type: Some(BnbNewOrderRespType::Result),
                api_key: self.api_key.clone(),
                timestamp,
                signature,
                recv_window,
            },
        )
    }
}

} // verus!
