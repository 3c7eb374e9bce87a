//! Gate.io spot trading over the websocket API: the request and response
//! types, the login signature, the requests the client sends, and the
//! client's connection and login state.
//!
//! The login is signed with the lower-case hexadecimal HMAC-SHA512, under the
//! secret key, of `api\nspot.login\n\n<timestamp>`. Requests carry an id made
//! of the current milliseconds and the kind of request.
use vstd::prelude::*;

use crate::clock::utc_now;
use crate::crypto::{hex_encode, hex_lower, hmac_sha512, hmac_sha512_tag};
use crate::text::{decimal, decimal_string, decimal_text, join_text, push_decimal, push_str};
use crate::text::{signed_decimal_string, signed_decimal_text, str_bytes};
use super::{new_request_id, opt_str, opt_text, ReconnectCounter, TradeError};
use vstd::arithmetic::power::pow;
use vstd::arithmetic::power2::{lemma_pow2, lemma_pow2_pos, lemma_pow2_unfold, pow2};

verus! {

#[verifier::external_type_specification]
#[verifier::external_body]
pub struct ExJsonValue(serde_json::Value);

/// Type of an order.
#[derive(Debug, Clone, Copy, PartialEq, Eq, Structural)]
pub enum GateOrderType {
    Limit,
    Market,
}

/// Side of an order.
#[derive(Debug, Clone, Copy, PartialEq, Eq, Structural)]
pub enum GateOrderSide {
    Buy,
    Sell,
}

impl GateOrderSide {
    /// The wire name of the side.
    pub open spec fn wire_name(self) -> Seq<char> {
        match self {
            GateOrderSide::Buy => "buy"@,
            GateOrderSide::Sell => "sell"@,
        }
    }

    pub fn as_str(&self) -> (s: &'static str)
        ensures
            s@ == self.wire_name(),
    {
        match self {
            GateOrderSide::Buy => "buy",
            GateOrderSide::Sell => "sell",
        }
    }
}

/// How long an order stays active.
#[derive(Debug, Clone, Copy, PartialEq, Eq, Structural)]
pub enum GateTimeInForce {
    /// Good till cancelled.
    Gtc,
    /// Immediate or cancel.
    Ioc,
    /// Fill or kill.
    Fok,
    /// Pending or cancelled: the order only rests on the book.
    Poc,
}

impl GateTimeInForce {
    /// The wire name of the time in force.
    pub open spec fn wire_name(self) -> Seq<char> {
        match self {
            GateTimeInForce::Gtc => "gtc"@,
            GateTimeInForce::Ioc => "ioc"@,
            GateTimeInForce::Fok => "fok"@,
            GateTimeInForce::Poc => "poc"@,
        }
    }

    pub fn as_str(&self) -> (s: &'static str)
        ensures
            s@ == self.wire_name(),
    {
        match self {
            GateTimeInForce::Gtc => "gtc",
            GateTimeInForce::Ioc => "ioc",
            GateTimeInForce::Fok => "fok",
            GateTimeInForce::Poc => "poc",
        }
    }
}

/// How much the answer to an order says.
#[derive(Debug, Clone, Copy, PartialEq, Eq, Structural)]
pub enum GateActionMode {
    /// Only the key fields, asynchronously.
    Ack,
    /// Without settlement details.
    Result,
    /// Everything.
    Full,
}

/// The parameters of a login.
#[derive(Debug, Clone)]
pub struct GateLoginRequest {
    pub req_id: String,
    pub api_key: String,
    pub signature: String,
    pub timestamp: String,
    pub req_header: Option<serde_json::Value>,
}

/// The parameters of a limit order.
#[derive(Debug, Clone)]
pub struct GateLimitOrderRequest {
    /// The client's own order id.
    pub text: String,
    pub currency_pair: String,
    pub order_type: GateOrderType,
    /// `spot`, `margin` or `cross_margin`.
    pub account: String,
    pub side: GateOrderSide,
    pub amount: String,
    pub price: String,
    pub time_in_force: Option<GateTimeInForce>,
    pub iceberg: Option<String>,
    pub auto_borrow: Option<bool>,
    pub auto_repay: Option<bool>,
    pub stp_act: Option<String>,
    pub action_mode: Option<GateActionMode>,
}

/// The parameters of a market order.
#[derive(Debug, Clone)]
pub struct GateMarketOrderRequest {
    pub text: String,
    pub currency_pair: String,
    pub order_type: GateOrderType,
    pub account: String,
    pub side: GateOrderSide,
    pub amount: String,
    pub time_in_force: Option<GateTimeInForce>,
    pub auto_borrow: Option<bool>,
    pub auto_repay: Option<bool>,
    pub stp_act: Option<String>,
    pub action_mode: Option<GateActionMode>,
}

/// The order named by a cancel or status request. On the wire its fields
/// appear in the order declared here.
#[derive(Debug, Clone)]
pub struct GateOrderRef {
    pub account: String,
    pub currency_pair: String,
    pub order_id: String,
}

/// A request on the websocket.
#[derive(Debug, Clone)]
pub struct GateApiRequest<T> {
    pub time: u64,
    pub channel: String,
    /// `api` for API calls.
    pub event: String,
    pub payload: T,
    pub id: Option<String>,
}

/// The payload of an API call.
#[derive(Debug, Clone)]
pub struct GateApiPayload<T> {
    pub req_id: String,
    pub req_param: T,
    pub req_header: Option<serde_json::Value>,
}

/// What an order request answers about the order.
#[derive(Debug, Clone)]
pub struct GateOrderResponse {
    pub id: String,
    pub text: String,
    pub amend_text: String,
    pub create_time: String,
    pub update_time: String,
    pub create_time_ms: u64,
    pub update_time_ms: u64,
    pub status: String,
    pub currency_pair: String,
    pub order_type: String,
    pub account: String,
    pub side: String,
    pub amount: String,
    pub price: String,
    pub time_in_force: String,
    pub iceberg: String,
    pub left: String,
    pub filled_total: String,
    pub fee: String,
    pub fee_currency: String,
    pub point_fee: String,
    pub gt_fee: String,
    pub gt_maker_fee: String,
    pub gt_taker_fee: String,
    pub gt_discount: bool,
    pub rebated_fee: String,
    pub rebated_fee_currency: String,
    pub stp_act: String,
    pub finish_as: String,
}

/// What a login answers.
#[derive(Debug, Clone)]
pub struct GateLoginResponse {
    pub api_key: String,
    pub uid: String,
}

/// The header of an answer.
#[derive(Debug, Clone)]
pub struct GateResponseHeader {
    pub response_time: String,
    pub status: String,
    pub channel: String,
    pub event: String,
    pub client_id: String,
    pub x_in_time: u64,
    pub x_out_time: u64,
    pub conn_id: String,
    pub conn_trace_id: String,
    pub trace_id: String,
    pub x_gate_ratelimit_requests_remain: Option<u32>,
    pub x_gate_ratelimit_limit: Option<u32>,
    pub x_gat_ratelimit_reset_timestamp: Option<u64>,
}

/// The data of an answer: a result or errors.
#[derive(Debug, Clone)]
pub struct GateResponseData<T> {
    pub result: Option<T>,
    pub errs: Option<GateApiError>,
}

/// An answer on the websocket.
#[derive(Debug, Clone)]
pub struct GateWebSocketResponse<T> {
    pub request_id: String,
    pub header: GateResponseHeader,
    pub data: GateResponseData<T>,
    pub ack: Option<bool>,
}

/// An error reported by the API.
#[derive(Debug, Clone)]
pub struct GateApiError {
    pub label: String,
    pub message: String,
}

/// State of the websocket connection.
#[derive(Debug, Clone, Copy, PartialEq, Eq, Structural)]
pub enum ConnectionStatus {
    Disconnected,
    Connecting,
    Connected,
    LoggedIn,
    Reconnecting,
}

/// The text signed at login.
pub open spec fn login_message(timestamp: u64) -> Seq<u8> {
    str_bytes("api\nspot.login\n\n"@) + decimal(timestamp as nat)
}

/// The id of a request made at `now_ms` of the given kind: `<ms>-<kind>`.
pub open spec fn request_id_text(now_ms: i64, kind: Seq<char>) -> Seq<char> {
    signed_decimal_text(now_ms as int) + kind
}

/// The account, `spot` unless given.
pub open spec fn account_or_spot<'a>(account: Option<&'a str>) -> Seq<char> {
    match opt_str(account) {
        Some(a) => a,
        None => "spot"@,
    }
}

/// The client order id: the given one, or `<prefix><timestamp>`.
pub open spec fn order_text(client_order_id: Option<String>, prefix: Seq<char>, timestamp: u64) -> Seq<char> {
    match opt_text(client_order_id) {
        Some(t) => t,
        None => prefix + decimal_text(timestamp as nat),
    }
}

/// An API call on `channel` with the request id of `kind` made at `now_ms`.
pub open spec fn is_api_call<T>(q: GateApiRequest<GateApiPayload<T>>, timestamp: u64, channel: Seq<char>, now_ms: i64, kind: Seq<char>) -> bool {
    &&& q.time == timestamp
    &&& q.channel@ == channel
    &&& q.event@ == "api"@
    &&& q.payload.req_id@ == request_id_text(now_ms, kind)
    &&& opt_text(q.id) == Some(q.payload.req_id@)
    &&& q.payload.req_header is None
}

/// True when `q` is the limit order call described by the arguments, made
/// at `timestamp` (seconds) and `now_ms`: the client order id is
/// `limit-<timestamp>` unless given, the account `spot` unless given, the
/// time in force good-till-cancelled unless given, and the full answer is
/// asked for.
pub open spec fn is_limit_order_call<'a>(
    q: GateApiRequest<GateApiPayload<GateLimitOrderRequest>>,
    symbol: Seq<char>,
    side: GateOrderSide,
    price: Seq<char>,
    quantity: Seq<char>,
    time_in_force: Option<GateTimeInForce>,
    client_order_id: Option<String>,
    account: Option<&'a str>,
    timestamp: u64,
    now_ms: i64,
) -> bool {
    &&& is_api_call(q, timestamp, "spot.order_place"@, now_ms, "-limit-order"@)
    &&& q.payload.req_param.text@ == order_text(client_order_id, "limit-"@, timestamp)
    &&& q.payload.req_param.currency_pair@ == symbol
    &&& q.payload.req_param.order_type == GateOrderType::Limit
    &&& q.payload.req_param.account@ == account_or_spot(account)
    &&& q.payload.req_param.side == side
    &&& q.payload.req_param.amount@ == quantity
    &&& q.payload.req_param.price@ == price
    &&& q.payload.req_param.time_in_force == Some(
        match time_in_force {
            Some(t) => t,
            None => GateTimeInForce::Gtc,
        },
    )
    &&& q.payload.req_param.iceberg is None
    &&& q.payload.req_param.auto_borrow is None
    &&& q.payload.req_param.auto_repay is None
    &&& q.payload.req_param.stp_act is None
    &&& q.payload.req_param.action_mode == Some(GateActionMode::Full)
}

/// True when `q` is the market order call described by the arguments, made
/// at `timestamp` (seconds) and `now_ms`: the client order id is
/// `market-<timestamp>` unless given, the account `spot` unless given, the
/// time in force immediate-or-cancel, and the full answer is asked for.
pub open spec fn is_market_order_call<'a>(
    q: GateApiRequest<GateApiPayload<GateMarketOrderRequest>>,
    symbol: Seq<char>,
    side: GateOrderSide,
    quantity: Seq<char>,
    client_order_id: Option<String>,
    account: Option<&'a str>,
    timestamp: u64,
    now_ms: i64,
) -> bool {
    &&& is_api_call(q, timestamp, "spot.order_place"@, now_ms, "-market-order"@)
    &&& q.payload.req_param.text@ == order_text(client_order_id, "market-"@, timestamp)
    &&& q.payload.req_param.currency_pair@ == symbol
    &&& q.payload.req_param.order_type == GateOrderType::Market
    &&& q.payload.req_param.account@ == account_or_spot(account)
    &&& q.payload.req_param.side == side
    &&& q.payload.req_param.amount@ == quantity
    &&& q.payload.req_param.time_in_force == Some(GateTimeInForce::Ioc)
    &&& q.payload.req_param.auto_borrow is None
    &&& q.payload.req_param.auto_repay is None
    &&& q.payload.req_param.stp_act is None
    &&& q.payload.req_param.action_mode == Some(GateActionMode::Full)
}

/// True when `q` is a call on `channel` about one order, with the request
/// id of `kind`, made at `timestamp` (seconds) and `now_ms`; the account is
/// `spot` unless given.
pub open spec fn is_order_ref_call<'a>(
    q: GateApiRequest<GateApiPayload<GateOrderRef>>,
    channel: Seq<char>,
    kind: Seq<char>,
    symbol: Seq<char>,
    order_id: Seq<char>,
    account: Option<&'a str>,
    timestamp: u64,
    now_ms: i64,
) -> bool {
    &&& is_api_call(q, timestamp, channel, now_ms, kind)
    &&& q.payload.req_param.order_id@ == order_id
    &&& q.payload.req_param.currency_pair@ == symbol
    &&& q.payload.req_param.account@ == account_or_spot(account)
}

/// The state of a Gate.io trading client: its credentials, the network it
/// uses, the state of its websocket, whether it has logged in, and its count
/// of failed connections.
pub struct GateWsTradeClient {
    api_key: String,
    secret_key: String,
    testnet: bool,
    connection_status: ConnectionStatus,
    login_status: bool,
    reconnect: ReconnectCounter,
}

/// Consecutive failed connections after which the client gives up, unless
/// another limit is set.
pub const MAX_RECONNECT_ATTEMPTS: u32 = 6000;

/// Seconds before the attempt that follows a first failure.
pub const RECONNECT_DELAY_SECS: u64 = 1;

/// The longest wait between two attempts, in seconds.
pub const MAX_RECONNECT_DELAY_SECS: u64 = 60;

/// The wait before the next attempt after `failures` consecutive failures:
/// `RECONNECT_DELAY_SECS` at first, then twice the previous wait with each
/// further failure, never more than `MAX_RECONNECT_DELAY_SECS`.
pub open spec fn backoff_secs(failures: nat) -> nat
    decreases failures,
{
    if failures <= 1 {
        RECONNECT_DELAY_SECS as nat
    } else {
        let d = 2 * backoff_secs((failures - 1) as nat);
        if d < MAX_RECONNECT_DELAY_SECS {
            d
        } else {
            MAX_RECONNECT_DELAY_SECS as nat
        }
    }
}

/// Law: the wait grows exponentially: after `k` failures (at least one) it
/// is `2^(k-1)` seconds, up to the longest wait.
pub proof fn lemma_backoff_exponential(k: nat)
    requires
        k >= 1,
    ensures
        backoff_secs(k) == (if pow2((k - 1) as nat) < MAX_RECONNECT_DELAY_SECS {
            pow2((k - 1) as nat)
        } else {
            MAX_RECONNECT_DELAY_SECS as nat
        }),
    decreases k,
{
    reveal(pow);
    if k == 1 {
        lemma_pow2(0);
    } else {
        lemma_backoff_exponential((k - 1) as nat);
        lemma_pow2_unfold((k - 1) as nat);
        lemma_pow2_pos((k - 2) as nat);
    }
}

/// Once the wait has reached the longest wait, it stays there.
proof fn lemma_backoff_stays(i: nat, k: nat)
    requires
        1 <= i <= k,
        backoff_secs(i) == MAX_RECONNECT_DELAY_SECS,
    ensures
        backoff_secs(k) == MAX_RECONNECT_DELAY_SECS,
    decreases k - i,
{
    if i < k {
        lemma_backoff_stays(i + 1, k);
    }
}

impl GateWsTradeClient {
    /// The API key.
    pub closed spec fn api_key_text(&self) -> Seq<char> {
        self.api_key@
    }

    /// The secret key.
    pub closed spec fn secret_text(&self) -> Seq<char> {
        self.secret_key@
    }

    /// Whether the client uses the test network.
    pub closed spec fn on_testnet(&self) -> bool {
        self.testnet
    }

    /// The state of the websocket.
    pub closed spec fn status(&self) -> ConnectionStatus {
        self.connection_status
    }

    /// Whether the client has logged in.
    pub closed spec fn logged_in(&self) -> bool {
        self.login_status
    }

    /// The count of failed connections.
    pub closed spec fn reconnects(&self) -> ReconnectCounter {
        self.reconnect
    }

    /// True when `other` has the credentials, network and count of `self`.
    pub open spec fn same_setup(&self, other: &Self) -> bool {
        &&& other.api_key_text() == self.api_key_text()
        &&& other.secret_text() == self.secret_text()
        &&& other.on_testnet() == self.on_testnet()
    }

    /// A disconnected client, not logged in, with no failed connection counted.
    pub fn new(api_key: String, secret_key: String, testnet: bool) -> (c: Self)
        ensures
            c.api_key_text() == api_key@,
            c.secret_text() == secret_key@,
            c.on_testnet() == testnet,
            c.status() == ConnectionStatus::Disconnected,
            !c.logged_in(),
            c.reconnects().count() == 0,
            c.reconnects().limit() == MAX_RECONNECT_ATTEMPTS,
    {
        GateWsTradeClient {
            api_key,
            secret_key,
            testnet,
            connection_status: ConnectionStatus::Disconnected,
            login_status: false,
            reconnect: ReconnectCounter::new(MAX_RECONNECT_ATTEMPTS),
        }
    }

    /// The state of the websocket.
    pub fn get_connection_status(&self) -> (s: ConnectionStatus)
        ensures
            s == self.status(),
    {
        self.connection_status
    }

    /// Whether the client has logged in.
    pub fn is_logged_in(&self) -> (b: bool)
        ensures
            b == self.logged_in(),
    {
        self.login_status
    }

    /// Records a new state of the websocket; the login is kept.
    pub fn set_connection_status(&mut self, status: ConnectionStatus)
        ensures
            final(self).status() == status,
            final(self).logged_in() == old(self).logged_in(),
            old(self).same_setup(final(self)),
            final(self).reconnects() == old(self).reconnects(),
    {
        self.connection_status = status;
    }

    /// The websocket closed (or is closed on purpose): disconnected and
    /// logged out.
    pub fn connection_lost(&mut self)
        ensures
            final(self).status() == ConnectionStatus::Disconnected,
            !final(self).logged_in(),
            old(self).same_setup(final(self)),
            final(self).reconnects() == old(self).reconnects(),
    {
        self.connection_status = ConnectionStatus::Disconnected;
        self.login_status = false;
    }

    /// The address of the websocket API on the network the client uses.
    pub fn ws_url(&self) -> (u: &'static str)
        ensures
            u@ == (if self.on_testnet() {
                "wss://ws-testnet.gate.com/v4/ws/spot"@
            } else {
                "wss://api.gateio.ws/ws/v4/"@
            }),
    {
        if self.testnet {
            "wss://ws-testnet.gate.com/v4/ws/spot"
        } else {
            "wss://api.gateio.ws/ws/v4/"
        }
    }

    /// The end of one connection session. A success starts the count of
    /// failures again; a failure is counted, and within the limit the client
    /// is marked reconnecting and logged out and tries again, beyond it the
    /// client gives up.
    pub fn session_finished(&mut self, succeeded: bool) -> (r: Result<(), TradeError>)
        ensures
            old(self).same_setup(final(self)),
            final(self).reconnects().limit() == old(self).reconnects().limit(),
            succeeded ==> r is Ok && final(self).reconnects().count() == 0 && final(self).status()
                == old(self).status() && final(self).logged_in() == old(self).logged_in(),
            !succeeded ==> final(self).reconnects().count() == super::next_failure_count(
                old(self).reconnects().count() as int,
                old(self).reconnects().limit() as int,
            ),
            !succeeded && final(self).reconnects().count() <= final(self).reconnects().limit() ==> r
                is Ok && final(self).status() == ConnectionStatus::Reconnecting
                && !final(self).logged_in(),
            !succeeded && final(self).reconnects().count() > final(self).reconnects().limit() ==> r
                == Err::<(), TradeError>(
                TradeError::ReconnectLimit { attempts: old(self).reconnects().limit() },
            ) && final(self).status() == old(self).status() && final(self).logged_in()
                == old(self).logged_in(),
    {
        if succeeded {
            self.reconnect.on_connected();
            return Ok(());
        }
        let retry = self.reconnect.on_failure();
        if !retry {
            return Err(TradeError::ReconnectLimit { attempts: self.reconnect.max_reconnect_attempts() });
        }
        self.connection_status = ConnectionStatus::Reconnecting;
        self.login_status = false;
        Ok(())
    }

    /// The wait, in seconds, before the next connection attempt: exponential
    /// in the failures counted so far, up to the longest wait.
    pub fn reconnect_delay_secs(&self) -> (d: u64)
        ensures
            d == backoff_secs(self.reconnects().count() as nat),
    {
        let count = self.reconnect.attempts();
        let mut d: u64 = RECONNECT_DELAY_SECS;
        let mut i: u32 = 1;
        while i < count && d < MAX_RECONNECT_DELAY_SECS
            invariant
                1 <= i,
                count == self.reconnects().count(),
                i < count ==> d == backoff_secs(i as nat),
                i >= count ==> d == backoff_secs(count as nat),
                d <= MAX_RECONNECT_DELAY_SECS,
            decreases count - i,
        {
            let twice = d * 2;
            d = if twice < MAX_RECONNECT_DELAY_SECS {
                twice
            } else {
                MAX_RECONNECT_DELAY_SECS
            };
            i = i + 1;
        }
        proof {
            if i < count {
                lemma_backoff_stays(i as nat, count as nat);
            }
        }
        d
    }

    /// Sets the number of consecutive failed connections after which the
    /// client gives up. A count already past the new limit is brought back to
    /// one past it.
    pub fn set_max_reconnect_attempts(&mut self, max_reconnect_attempts: u32)
        requires
            max_reconnect_attempts < u32::MAX,
        ensures
            old(self).same_setup(final(self)),
            final(self).status() == old(self).status(),
            final(self).logged_in() == old(self).logged_in(),
            final(self).reconnects().limit() == max_reconnect_attempts,
            final(self).reconnects().count() == (if old(self).reconnects().count()
                <= max_reconnect_attempts + 1 {
                old(self).reconnects().count() as int
            } else {
                max_reconnect_attempts + 1
            }),
    {
        self.reconnect.set_limit(max_reconnect_attempts);
    }

    /// The login signature at `timestamp` (seconds): hexadecimal
    /// HMAC-SHA512, under the secret key, of `api\nspot.login\n\n<timestamp>`.
    /// It never fails: the MAC takes keys of any length.
    pub fn generate_login_signature(&self, timestamp: u64) -> (r: Result<String, TradeError>)
        ensures
            r is Ok,
            r->Ok_0@ == hex_lower(hmac_sha512(str_bytes(self.secret_text()), login_message(timestamp))),
            r->Ok_0@.len() == 128,
    {
        let mut msg: Vec<u8> = Vec::new();
        push_str(&mut msg, "api\nspot.login\n\n");
        push_decimal(&mut msg, timestamp);
        let tag = match hmac_sha512_tag(self.secret_key.as_str().as_bytes(), msg.as_slice()) {
            Ok(t) => t,
            Err(_) => return Err(TradeError::InvalidKeyLength),
        };
        proof {
            crate::crypto::lemma_hex_lower_len(tag@);
        }
        Ok(hex_encode(tag.as_slice()))
    }

    /// The login request at `timestamp` (seconds) and `now_ms`: on channel
    /// `spot.login`, with the request id `<ms>-login`, the API key, the login
    /// signature and the timestamp as text.
    pub fn login_request(&self, timestamp: u64, now_ms: i64) -> (q: GateApiRequest<GateLoginRequest>)
        ensures
            q.time == timestamp,
            q.channel@ == "spot.login"@,
            q.event@ == "api"@,
            q.id is None,
            q.payload.req_id@ == request_id_text(now_ms, "-login"@),
            q.payload.api_key@ == self.api_key_text(),
            q.payload.signature@ == hex_lower(
                hmac_sha512(str_bytes(self.secret_text()), login_message(timestamp)),
            ),
            q.payload.timestamp@ == decimal_text(timestamp as nat),
            q.payload.req_header is None,
    {
        let ms = signed_decimal_string(now_ms);
        let req_id = join_text(ms.as_str(), "-login");
        let signature = match self.generate_login_signature(timestamp) {
            Ok(s) => s,
            Err(_) => String::new(),
        };
        let login = GateLoginRequest {
            req_id,
            api_key: self.api_key.clone(),
            signature,
            timestamp: decimal_string(timestamp),
            req_header: None,
        };
        GateApiRequest {
            time: timestamp,
            channel: "spot.login".to_string(),
            event: "api".to_string(),
            payload: login,
            id: None,
        }
    }

    /// The answer to the login: with header status `200` the client is logged
    /// in; otherwise the login failed, with the API's error when the answer
    /// carries one.
    pub fn login_answered(&mut self, response: &GateWebSocketResponse<GateLoginResponse>) -> (r: Result<(), TradeError>)
        ensures
            old(self).same_setup(final(self)),
            final(self).reconnects() == old(self).reconnects(),
            response.header.status@ == "200"@ ==> r is Ok && final(self).logged_in() && final(self).status()
                == ConnectionStatus::LoggedIn,
            response.header.status@ != "200"@ ==> final(self).logged_in() == old(self).logged_in()
                && final(self).status() == old(self).status() && r == Err::<(), TradeError>(
                match response.data.errs {
                    Some(e) => TradeError::GateLogin { label: e.label, message: e.message },
                    None => TradeError::GateLoginStatus(response.header.status),
                },
            ),
    {
        if !crate::text::str_equal(response.header.status.as_str(), "200") {
            return match &response.data.errs {
                Some(e) => Err(TradeError::GateLogin { label: e.label.clone(), message: e.message.clone() }),
                None => Err(TradeError::GateLoginStatus(response.header.status.clone())),
            };
        }
        self.login_status = true;
        self.connection_status = ConnectionStatus::LoggedIn;
        Ok(())
    }

    /// API calls go out on any websocket that is not disconnected.
    pub fn ensure_connected(&self) -> (r: Result<(), TradeError>)
        ensures
            r is Ok <==> self.status() != ConnectionStatus::Disconnected,
            r is Err ==> r == Err::<(), TradeError>(TradeError::NotConnected),
    {
        if self.connection_status == ConnectionStatus::Disconnected {
            Err(TradeError::NotConnected)
        } else {
            Ok(())
        }
    }

    /// The id under which the answer to `request` is awaited: its own id,
    /// or a fresh random one when it has none; `None` when a fresh one is
    /// needed and the system's random source fails.
    pub fn request_id_for<T>(request: &GateApiRequest<T>) -> (id: Option<String>)
        ensures
            request.id matches Some(i) ==> id == Some(i),
            request.id is None ==> (id matches Some(s) ==> s@.len() == 36),
    {
        match &request.id {
            Some(i) => Some(i.clone()),
            None => new_request_id(),
        }
    }

    /// Orders and queries are made only after login.
    pub fn ensure_logged_in(&self) -> (r: Result<(), TradeError>)
        ensures
            r is Ok <==> self.logged_in(),
            r is Err ==> r == Err::<(), TradeError>(TradeError::NotLoggedIn),
    {
        if self.login_status {
            Ok(())
        } else {
            Err(TradeError::NotLoggedIn)
        }
    }

    /// A limit order at `timestamp` (seconds) and `now_ms`, once logged in:
    /// the client order id is `limit-<timestamp>` unless given, the account
    /// `spot` unless given, the time in force good-till-cancelled unless
    /// given, and the full answer is asked for.
    pub fn limit_order_request(
        &self,
        symbol: &str,
        side: GateOrderSide,
        price: &str,
        quantity: &str,
        time_in_force: Option<GateTimeInForce>,
        client_order_id: Option<String>,
        account: Option<&str>,
        timestamp: u64,
        now_ms: i64,
    ) -> (r: Result<GateApiRequest<GateApiPayload<GateLimitOrderRequest>>, TradeError>)
        ensures
            r is Ok <==> self.logged_in(),
            r is Err ==> r == Err::<GateApiRequest<GateApiPayload<GateLimitOrderRequest>>, TradeError>(
                TradeError::NotLoggedIn,
            ),
            r matches Ok(q) ==> is_limit_order_call(
                q,
                symbol@,
                side,
                price@,
                quantity@,
                time_in_force,
                client_order_id,
                account,
                timestamp,
                now_ms,
            ),
    {
        if !self.login_status {
            return Err(TradeError::NotLoggedIn);
        }
        let req_id = Self::request_id(now_ms, "-limit-order");
        let text = Self::order_text_for(client_order_id, "limit-", timestamp);
        let tif = match time_in_force {
            Some(t) => t,
            None => GateTimeInForce::Gtc,
        };
        let order = GateLimitOrderRequest {
            text,
            currency_pair: symbol.to_string(),
            order_type: GateOrderType::Limit,
            account: Self::account_text(account),
            side,
            amount: quantity.to_string(),
            price: price.to_string(),
            time_in_force: Some(tif),
            iceberg: None,
            auto_borrow: None,
            auto_repay: None,
            stp_act: None,
            action_mode: Some(GateActionMode::Full),
        };
        Ok(Self::api_call(order, req_id, timestamp, "spot.order_place"))
    }

    /// A market order at `timestamp` (seconds) and `now_ms`, once logged in:
    /// the client order id is `market-<timestamp>` unless given, the account
    /// `spot` unless given, the time in force immediate-or-cancel, and the
    /// full answer is asked for.
    pub fn market_order_request(
        &self,
        symbol: &str,
        side: GateOrderSide,
        quantity: &str,
        client_order_id: Option<String>,
        account: Option<&str>,
        timestamp: u64,
        now_ms: i64,
    ) -> (r: Result<GateApiRequest<GateApiPayload<GateMarketOrderRequest>>, TradeError>)
        ensures
            r is Ok <==> self.logged_in(),
            r is Err ==> r == Err::<GateApiRequest<GateApiPayload<GateMarketOrderRequest>>, TradeError>(
                TradeError::NotLoggedIn,
            ),
            r matches Ok(q) ==> is_market_order_call(
                q,
                symbol@,
                side,
                quantity@,
                client_order_id,
                account,
                timestamp,
                now_ms,
            ),
    {
        if !self.login_status {
            return Err(TradeError::NotLoggedIn);
        }
        let req_id = Self::request_id(now_ms, "-market-order");
        let text = Self::order_text_for(client_order_id, "market-", timestamp);
        let order = GateMarketOrderRequest {
            text,
            currency_pair: symbol.to_string(),
            order_type: GateOrderType::Market,
            account: Self::account_text(account),
            side,
            amount: quantity.to_string(),
            time_in_force: Some(GateTimeInForce::Ioc),
            auto_borrow: None,
            auto_repay: None,
            stp_act: None,
            action_mode: Some(GateActionMode::Full),
        };
        Ok(Self::api_call(order, req_id, timestamp, "spot.order_place"))
    }

    /// A cancel request for an order at `timestamp` (seconds) and `now_ms`,
    /// once logged in; the account is `spot` unless given.
    pub fn cancel_order_request(
        &self,
        symbol: &str,
        order_id: &str,
        account: Option<&str>,
        timestamp: u64,
        now_ms: i64,
    ) -> (r: Result<GateApiRequest<GateApiPayload<GateOrderRef>>, TradeError>)
        ensures
            r is Ok <==> self.logged_in(),
            r is Err ==> r == Err::<GateApiRequest<GateApiPayload<GateOrderRef>>, TradeError>(
                TradeError::NotLoggedIn,
            ),
            r matches Ok(q) ==> is_order_ref_call(
                q,
                "spot.order_cancel"@,
                "-cancel-order"@,
                symbol@,
                order_id@,
                account,
                timestamp,
                now_ms,
            ),
    {
        if !self.login_status {
            return Err(TradeError::NotLoggedIn);
        }
        let req_id = Self::request_id(now_ms, "-cancel-order");
        let order = GateOrderRef {
            account: Self::account_text(account),
            currency_pair: symbol.to_string(),
            order_id: order_id.to_string(),
        };
        Ok(Self::api_call(order, req_id, timestamp, "spot.order_cancel"))
    }

    /// A status query for an order at `timestamp` (seconds) and `now_ms`,
    /// once logged in; the account is `spot` unless given.
    pub fn order_status_request(
        &self,
        symbol: &str,
        order_id: &str,
        account: Option<&str>,
        timestamp: u64,
        now_ms: i64,
    ) -> (r: Result<GateApiRequest<GateApiPayload<GateOrderRef>>, TradeError>)
        ensures
            r is Ok <==> self.logged_in(),
            r is Err ==> r == Err::<GateApiRequest<GateApiPayload<GateOrderRef>>, TradeError>(
                TradeError::NotLoggedIn,
            ),
            r matches Ok(q) ==> is_order_ref_call(
                q,
                "spot.order_status"@,
                "-order-status"@,
                symbol@,
                order_id@,
                account,
                timestamp,
                now_ms,
            ),
    {
        if !self.login_status {
            return Err(TradeError::NotLoggedIn);
        }
        let req_id = Self::request_id(now_ms, "-order-status");
        let order = GateOrderRef {
            account: Self::account_text(account),
            currency_pair: symbol.to_string(),
            order_id: order_id.to_string(),
        };
        Ok(Self::api_call(order, req_id, timestamp, "spot.order_status"))
    }

    /// The heartbeat at `timestamp` (seconds): channel `spot.ping`, event
    /// `subscribe`, an empty payload and no id.
    pub fn ping_request(timestamp: u64) -> (q: GateApiRequest<()>)
        ensures
            q.time == timestamp,
            q.channel@ == "spot.ping"@,
            q.event@ == "subscribe"@,
            q.id is None,
    {
        GateApiRequest {
            time: timestamp,
            channel: "spot.ping".to_string(),
            event: "subscribe".to_string(),
            payload: (),
            id: None,
        }
    }

    /// The login request stamped with the clock (seconds, and milliseconds
    /// of the same reading); refused when the clock reads before the Unix
    /// epoch.
    pub fn login_request_now(&self) -> (r: Result<GateApiRequest<GateLoginRequest>, TradeError>)
        ensures
            r is Err ==> r == Err::<GateApiRequest<GateLoginRequest>, TradeError>(TradeError::ClockUnavailable),
            r matches Ok(q) ==> {
                &&& exists|now_ms: i64| q.payload.req_id@ == request_id_text(now_ms, "-login"@)
                &&& q.channel@ == "spot.login"@
                &&& q.event@ == "api"@
                &&& q.id is None
                &&& q.payload.api_key@ == self.api_key_text()
                &&& q.payload.signature@ == hex_lower(
                    hmac_sha512(str_bytes(self.secret_text()), login_message(q.time)),
                )
                &&& q.payload.timestamp@ == decimal_text(q.time as nat)
                &&& q.payload.req_header is None
            },
    {
        let (secs, now_ms) = match utc_now() {
            Some(p) => p,
            None => return Err(TradeError::ClockUnavailable),
        };
        let timestamp = secs as u64;
        Ok(self.login_request(timestamp, now_ms))
    }

    /// A limit order stamped with the clock, once logged in; refused when the clock reads
    /// before the Unix epoch.
    pub fn limit_order_request_now(
        &self,
        symbol: &str,
        side: GateOrderSide,
        price: &str,
        quantity: &str,
        time_in_force: Option<GateTimeInForce>,
        client_order_id: Option<String>,
        account: Option<&str>,
    ) -> (r: Result<GateApiRequest<GateApiPayload<GateLimitOrderRequest>>, TradeError>)
        ensures
            !self.logged_in() ==> r == Err::<GateApiRequest<GateApiPayload<GateLimitOrderRequest>>, TradeError>(
                TradeError::NotLoggedIn,
            ),
            self.logged_in() ==> (r is Ok || r == Err::<GateApiRequest<GateApiPayload<GateLimitOrderRequest>>, TradeError>(
                TradeError::ClockUnavailable,
            )),
            r matches Ok(q) ==> exists|now_ms: i64|
                is_limit_order_call(
                    q,
                    symbol@,
                    side,
                    price@,
                    quantity@,
                    time_in_force,
                    client_order_id,
                    account,
                    q.time,
                    now_ms,
                ),
    {
        if !self.login_status {
            return Err(TradeError::NotLoggedIn);
        }
        let (secs, now_ms) = match utc_now() {
            Some(p) => p,
            None => return Err(TradeError::ClockUnavailable),
        };
        let timestamp = secs as u64;
        self.limit_order_request(symbol, side, price, quantity, time_in_force, client_order_id, account, timestamp, now_ms)
    }

    /// A market order stamped with the clock, once logged in; refused when the clock reads
    /// before the Unix epoch.
    pub fn market_order_request_now(
        &self,
        symbol: &str,
        side: GateOrderSide,
        quantity: &str,
        client_order_id: Option<String>,
        account: Option<&str>,
    ) -> (r: Result<GateApiRequest<GateApiPayload<GateMarketOrderRequest>>, TradeError>)
        ensures
            !self.logged_in() ==> r == Err::<GateApiRequest<GateApiPayload<GateMarketOrderRequest>>, TradeError>(
                TradeError::NotLoggedIn,
            ),
            self.logged_in() ==> (r is Ok || r == Err::<GateApiRequest<GateApiPayload<GateMarketOrderRequest>>, TradeError>(
                TradeError::ClockUnavailable,
            )),
            r matches Ok(q) ==> exists|now_ms: i64|
                is_market_order_call(q, symbol@, side, quantity@, client_order_id, account, q.time, now_ms),
    {
        if !self.login_status {
            return Err(TradeError::NotLoggedIn);
        }
        let (secs, now_ms) = match utc_now() {
            Some(p) => p,
            None => return Err(TradeError::ClockUnavailable),
        };
        let timestamp = secs as u64;
        self.market_order_request(symbol, side, quantity, client_order_id, account, timestamp, now_ms)
    }

    /// A cancel request stamped with the clock, once logged in; refused when the clock reads
    /// before the Unix epoch.
    pub fn cancel_order_request_now(&self, symbol: &str, order_id: &str, account: Option<&str>) -> (r: Result<
        GateApiRequest<GateApiPayload<GateOrderRef>>,
        TradeError,
    >)
        ensures
            !self.logged_in() ==> r == Err::<GateApiRequest<GateApiPayload<GateOrderRef>>, TradeError>(
                TradeError::NotLoggedIn,
            ),
            self.logged_in() ==> (r is Ok || r == Err::<GateApiRequest<GateApiPayload<GateOrderRef>>, TradeError>(
                TradeError::ClockUnavailable,
            )),
            r matches Ok(q) ==> exists|now_ms: i64|
                is_order_ref_call(
                    q,
                    "spot.order_cancel"@,
                    "-cancel-order"@,
                    symbol@,
                    order_id@,
                    account,
                    q.time,
                    now_ms,
                ),
    {
        if !self.login_status {
            return Err(TradeError::NotLoggedIn);
        }
        let (secs, now_ms) = match utc_now() {
            Some(p) => p,
            None => return Err(TradeError::ClockUnavailable),
        };
        let timestamp = secs as u64;
        self.cancel_order_request(symbol, order_id, account, timestamp, now_ms)
    }

    /// A status query stamped with the clock, once logged in; refused when the clock reads
    /// before the Unix epoch.
    pub fn order_status_request_now(&self, symbol: &str, order_id: &str, account: Option<&str>) -> (r: Result<
        GateApiRequest<GateApiPayload<GateOrderRef>>,
        TradeError,
    >)
        ensures
            !self.logged_in() ==> r == Err::<GateApiRequest<GateApiPayload<GateOrderRef>>, TradeError>(
                TradeError::NotLoggedIn,
            ),
            self.logged_in() ==> (r is Ok || r == Err::<GateApiRequest<GateApiPayload<GateOrderRef>>, TradeError>(
                TradeError::ClockUnavailable,
            )),
            r matches Ok(q) ==> exists|now_ms: i64|
                is_order_ref_call(
                    q,
                    "spot.order_status"@,
                    "-order-status"@,
                    symbol@,
                    order_id@,
                    account,
                    q.time,
                    now_ms,
                ),
    {
        if !self.login_status {
            return Err(TradeError::NotLoggedIn);
        }
        let (secs, now_ms) = match utc_now() {
            Some(p) => p,
            None => return Err(TradeError::ClockUnavailable),
        };
        let timestamp = secs as u64;
        self.order_status_request(symbol, order_id, account, timestamp, now_ms)
    }

    /// The heartbeat stamped with the clock (seconds); refused when the
    /// clock reads before the Unix epoch.
    pub fn ping_request_now() -> (r: Result<GateApiRequest<()>, TradeError>)
        ensures
            r is Err ==> r == Err::<GateApiRequest<()>, TradeError>(TradeError::ClockUnavailable),
            r matches Ok(q) ==> q.channel@ == "spot.ping"@ && q.event@ == "subscribe"@ && q.id is None,
    {
        match utc_now() {
            Some(p) => Ok(Self::ping_request(p.0 as u64)),
            None => Err(TradeError::ClockUnavailable),
        }
    }

    /// `<ms><kind>`.
    fn request_id(now_ms: i64, kind: &str) -> (s: String)
        ensures
            s@ == request_id_text(now_ms, kind@),
    {
        let ms = signed_decimal_string(now_ms);
        join_text(ms.as_str(), kind)
    }

    /// The given client order id, or `<prefix><timestamp>`.
    fn order_text_for(client_order_id: Option<String>, prefix: &str, timestamp: u64) -> (s: String)
        ensures
            s@ == order_text(client_order_id, prefix@, timestamp),
    {
        match client_order_id {
            Some(t) => t,
            None => {
                let ts = decimal_string(timestamp);
                join_text(prefix, ts.as_str())
            },
        }
    }

    /// The given account, or `spot`.
    fn account_text(account: Option<&str>) -> (s: String)
        ensures
            s@ == account_or_spot(account),
    {
        match account {
            Some(a) => a.to_string(),
            None => "spot".to_string(),
        }
    }

    /// An API call carrying `param` on `channel`, with `req_id` both as the
    /// payload's id and as the request's.
    fn api_call<T>(param: T, req_id: String, timestamp: u64, channel: &str) -> (q: GateApiRequest<GateApiPayload<T>>)
        ensures
            q.time == timestamp,
            q.channel@ == channel@,
            q.event@ == "api"@,
            q.payload.req_id == req_id,
            q.payload.req_param == param,
            q.id == Some(req_id),
            q.payload.req_header is None,
    {
        let payload = GateApiPayload { req_id: req_id.clone(), req_param: param, req_header: None };
        GateApiRequest {
            time: timestamp,
            channel: channel.to_string(),
            event: "api".to_string(),
            payload,
            id: Some(req_id),
        }
    }
}

} // verus!
