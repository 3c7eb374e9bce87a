//! OKX trading over the private websocket: the request and response types,
//! the login signature, the orders the client sends, and the client's
//! connection and login state.
//!
//! The login is signed with the standard base64 of the HMAC-SHA256, under the
//! secret key, of `<timestamp>GET/users/self/verify`. Requests after login
//! carry no signature.
use vstd::prelude::*;

use crate::clock::system_now_parts;
use crate::crypto::{base64_encode, base64_standard, base64_standard_decode, hmac_sha256, hmac_sha256_tag};
use crate::text::{decimal_string, decimal_text, join_text, str_bytes};
use super::{new_request_id, opt_text, ReconnectCounter, TradeError};

verus! {

/// Type of an order.
#[derive(Debug, Clone, Copy, PartialEq, Eq, Structural)]
pub enum OkxOrderType {
    Market,
    Limit,
    PostOnly,
    Fok,
    Ioc,
}

impl OkxOrderType {
    /// The wire name of the order type.
    pub open spec fn wire_name(self) -> Seq<char> {
        match self {
            OkxOrderType::Market => "market"@,
            OkxOrderType::Limit => "limit"@,
            OkxOrderType::PostOnly => "post_only"@,
            OkxOrderType::Fok => "fok"@,
            OkxOrderType::Ioc => "ioc"@,
        }
    }

    pub fn as_str(&self) -> (s: &'static str)
        ensures
            s@ == self.wire_name(),
    {
        match self {
            OkxOrderType::Market => "market",
            OkxOrderType::Limit => "limit",
            OkxOrderType::PostOnly => "post_only",
            OkxOrderType::Fok => "fok",
            OkxOrderType::Ioc => "ioc",
        }
    }
}

/// Side of an order.
#[derive(Debug, Clone, Copy, PartialEq, Eq, Structural)]
pub enum OkxOrderSide {
    Buy,
    Sell,
}

impl OkxOrderSide {
    /// The wire name of the side.
    pub open spec fn wire_name(self) -> Seq<char> {
        match self {
            OkxOrderSide::Buy => "buy"@,
            OkxOrderSide::Sell => "sell"@,
        }
    }

    pub fn as_str(&self) -> (s: &'static str)
        ensures
            s@ == self.wire_name(),
    {
        match self {
            OkxOrderSide::Buy => "buy",
            OkxOrderSide::Sell => "sell",
        }
    }
}

/// Trading mode.
#[derive(Debug, Clone, Copy, PartialEq, Eq, Structural)]
pub enum OkxTradeMode {
    /// Spot.
    Cash,
    /// Cross margin.
    Cross,
    /// Isolated margin.
    Isolated,
}

impl OkxTradeMode {
    /// The wire name of the mode.
    pub open spec fn wire_name(self) -> Seq<char> {
        match self {
            OkxTradeMode::Cash => "cash"@,
            OkxTradeMode::Cross => "cross"@,
            OkxTradeMode::Isolated => "isolated"@,
        }
    }

    pub fn as_str(&self) -> (s: &'static str)
        ensures
            s@ == self.wire_name(),
    {
        match self {
            OkxTradeMode::Cash => "cash",
            OkxTradeMode::Cross => "cross",
            OkxTradeMode::Isolated => "isolated",
        }
    }
}

/// Position side.
#[derive(Debug, Clone, Copy, PartialEq, Eq, Structural)]
pub enum OkxPositionSide {
    /// Buy/sell mode.
    Net,
    /// Long, in long/short mode.
    Long,
    /// Short, in long/short mode.
    Short,
}

impl OkxPositionSide {
    /// The wire name of the position side.
    pub open spec fn wire_name(self) -> Seq<char> {
        match self {
            OkxPositionSide::Net => "net"@,
            OkxPositionSide::Long => "long"@,
            OkxPositionSide::Short => "short"@,
        }
    }

    pub fn as_str(&self) -> (s: &'static str)
        ensures
            s@ == self.wire_name(),
    {
        match self {
            OkxPositionSide::Net => "net",
            OkxPositionSide::Long => "long",
            OkxPositionSide::Short => "short",
        }
    }
}

/// The parameters of a login.
#[derive(Debug, Clone)]
pub struct OkxLoginRequest {
    pub api_key: String,
    pub passphrase: String,
    pub timestamp: String,
    pub sign: String,
}

/// The parameters of a new order.
#[derive(Debug, Clone)]
pub struct OkxPlaceOrderRequest {
    pub inst_id: String,
    pub td_mode: String,
    pub side: String,
    pub ord_type: String,
    pub sz: String,
    pub px: Option<String>,
    pub pos_side: Option<String>,
    pub cl_ord_id: Option<String>,
    pub tag: Option<String>,
    pub reduce_only: Option<bool>,
}

/// The parameters of a cancellation.
#[derive(Debug, Clone)]
pub struct OkxCancelOrderRequest {
    pub inst_id: String,
    pub ord_id: Option<String>,
    pub cl_ord_id: Option<String>,
}

/// The parameters of an amendment.
#[derive(Debug, Clone)]
pub struct OkxAmendOrderRequest {
    pub inst_id: String,
    pub ord_id: Option<String>,
    pub cl_ord_id: Option<String>,
    pub new_sz: Option<String>,
    pub new_px: Option<String>,
}

/// A request on the websocket.
#[derive(Debug, Clone)]
pub struct OkxWebSocketRequest<T> {
    pub id: String,
    pub op: String,
    pub args: Option<T>,
}

/// The login request on the websocket.
#[derive(Debug, Clone)]
pub struct OkxLoginWebSocketRequest {
    pub op: String,
    pub args: Vec<OkxLoginRequest>,
}

/// What an order request answers about the order.
#[derive(Debug, Clone)]
pub struct OkxOrderResponse {
    pub ord_id: String,
    pub cl_ord_id: Option<String>,
    pub tag: Option<String>,
    pub s_code: String,
    pub s_msg: String,
    pub ts: Option<String>,
}

/// An answer on the websocket.
#[derive(Debug, Clone)]
pub struct OkxWebSocketResponse<T> {
    pub id: Option<String>,
    pub op: String,
    pub code: String,
    pub msg: String,
    pub data: Option<Vec<T>>,
    pub event: Option<String>,
    pub conn_id: Option<String>,
    pub in_time: Option<String>,
    pub out_time: Option<String>,
}

/// The answer to a login.
#[derive(Debug, Clone)]
pub struct OkxLoginResponse {
    pub event: String,
    pub code: String,
    pub msg: String,
    pub conn_id: Option<String>,
}

/// State of the websocket connection.
#[derive(Debug, Clone, Copy, PartialEq, Eq, Structural)]
pub enum ConnectionStatus {
    Disconnected,
    Connecting,
    Connected,
    LoggingIn,
    LoggedIn,
    Reconnecting,
}

/// How many times the client looks for the login's answer, a tenth of a
/// second apart, before it gives up.
pub const LOGIN_POLLS: u32 = 50;

/// Consecutive failed connections after which the client gives up.
pub const MAX_RECONNECT_ATTEMPTS: u32 = 6000;

/// Seconds between two connection attempts.
pub const RECONNECT_DELAY_SECS: u64 = 1;

/// The text signed at login.
pub open spec fn login_sign_text(timestamp: u64) -> Seq<char> {
    decimal_text(timestamp as nat) + "GET/users/self/verify"@
}

/// The signature of a message: standard base64 of its HMAC-SHA256 under the
/// secret.
pub open spec fn okx_signature(secret: Seq<char>, message: Seq<char>) -> Seq<char> {
    base64_standard(hmac_sha256(str_bytes(secret), str_bytes(message)))
}

/// True when `q` is the new order described by the arguments.
pub open spec fn is_order(
    q: OkxPlaceOrderRequest,
    inst_id: Seq<char>,
    side: OkxOrderSide,
    td_mode: OkxTradeMode,
    ord_type: OkxOrderType,
    price: Option<Seq<char>>,
    size: Seq<char>,
    pos_side: Option<OkxPositionSide>,
    client_order_id: Option<String>,
    tag: Option<String>,
    reduce_only: Option<bool>,
) -> bool {
    &&& q.inst_id@ == inst_id
    &&& q.td_mode@ == td_mode.wire_name()
    &&& q.side@ == side.wire_name()
    &&& q.ord_type@ == ord_type.wire_name()
    &&& q.sz@ == size
    &&& opt_text(q.px) == price
    &&& opt_text(q.pos_side) == (match pos_side {
        Some(p) => Some(p.wire_name()),
        None => None,
    })
    &&& q.cl_ord_id == client_order_id
    &&& q.tag == tag
    &&& q.reduce_only == reduce_only
}

/// The state of an OKX trading client: its credentials, the network it uses,
/// the state of its websocket and its count of failed connections.
pub struct OkxWsTradeClient {
    api_key: String,
    secret_key: String,
    passphrase: String,
    testnet: bool,
    connection_status: ConnectionStatus,
    reconnect: ReconnectCounter,
}

impl OkxWsTradeClient {
    /// The API key.
    pub closed spec fn api_key_text(&self) -> Seq<char> {
        self.api_key@
    }

    /// The secret key.
    pub closed spec fn secret_text(&self) -> Seq<char> {
        self.secret_key@
    }

    /// The passphrase.
    pub closed spec fn passphrase_text(&self) -> Seq<char> {
        self.passphrase@
    }

    /// Whether the client uses the test network.
    pub closed spec fn on_testnet(&self) -> bool {
        self.testnet
    }

    /// The state of the websocket.
    pub closed spec fn status(&self) -> ConnectionStatus {
        self.connection_status
    }

    /// The count of failed connections.
    pub closed spec fn reconnects(&self) -> ReconnectCounter {
        self.reconnect
    }

    /// True when `other` has the credentials and network of `self`.
    pub open spec fn same_setup(&self, other: &Self) -> bool {
        &&& other.api_key_text() == self.api_key_text()
        &&& other.secret_text() == self.secret_text()
        &&& other.passphrase_text() == self.passphrase_text()
        &&& other.on_testnet() == self.on_testnet()
    }

    /// A disconnected client with no failed connection counted.
    pub fn new(api_key: String, secret_key: String, passphrase: String, testnet: bool) -> (c: Self)
        ensures
            c.api_key_text() == api_key@,
            c.secret_text() == secret_key@,
            c.passphrase_text() == passphrase@,
            c.on_testnet() == testnet,
            c.status() == ConnectionStatus::Disconnected,
            c.reconnects().count() == 0,
            c.reconnects().limit() == MAX_RECONNECT_ATTEMPTS,
    {
        OkxWsTradeClient {
            api_key,
            secret_key,
            passphrase,
            testnet,
            connection_status: ConnectionStatus::Disconnected,
            reconnect: ReconnectCounter::new(MAX_RECONNECT_ATTEMPTS),
        }
    }

    /// The state of the websocket.
    pub fn get_connection_status(&self) -> (s: ConnectionStatus)
        ensures
            s == self.status(),
    {
        self.connection_status
    }

    /// Records a new state of the websocket.
    pub fn set_connection_status(&mut self, status: ConnectionStatus)
        ensures
            final(self).status() == status,
            old(self).same_setup(final(self)),
            final(self).reconnects() == old(self).reconnects(),
    {
        self.connection_status = status;
    }

    /// The address of the private websocket on the network the client uses.
    pub fn ws_url(&self) -> (u: &'static str)
        ensures
            u@ == (if self.on_testnet() {
                "wss://wspap.okx.com:8443/ws/v5/private"@
            } else {
                "wss://ws.okx.com:8443/ws/v5/private"@
            }),
    {
        if self.testnet {
            "wss://wspap.okx.com:8443/ws/v5/private"
        } else {
            "wss://ws.okx.com:8443/ws/v5/private"
        }
    }

    /// The end of one connection session. A success starts the count of
    /// failures again; a failure is counted, and within the limit the client
    /// is marked reconnecting and tries again, beyond it the client gives up.
    pub fn session_finished(&mut self, succeeded: bool) -> (r: Result<(), TradeError>)
        ensures
            old(self).same_setup(final(self)),
            final(self).reconnects().limit() == old(self).reconnects().limit(),
            succeeded ==> r is Ok && final(self).reconnects().count() == 0 && final(self).status()
                == old(self).status(),
            !succeeded ==> final(self).reconnects().count() == super::next_failure_count(
                old(self).reconnects().count() as int,
                old(self).reconnects().limit() as int,
            ),
            !succeeded && final(self).reconnects().count() <= final(self).reconnects().limit() ==> r
                is Ok && final(self).status() == ConnectionStatus::Reconnecting,
            !succeeded && final(self).reconnects().count() > final(self).reconnects().limit() ==> r
                == Err::<(), TradeError>(
                TradeError::ReconnectLimit { attempts: old(self).reconnects().limit() },
            ) && final(self).status() == old(self).status(),
    {
        if succeeded {
            self.reconnect.on_connected();
            return Ok(());
        }
        let retry = self.reconnect.on_failure();
        if !retry {
            return Err(TradeError::ReconnectLimit { attempts: self.reconnect.max_reconnect_attempts() });
        }
        self.connection_status = ConnectionStatus::Reconnecting;
        Ok(())
    }

    /// The signature of a message: standard base64 of its HMAC-SHA256 under
    /// the secret key. It never fails: the MAC takes keys of any length.
    pub fn generate_signature(&self, message: &str) -> (r: Result<String, TradeError>)
        ensures
            r is Ok,
            r->Ok_0@ == okx_signature(self.secret_text(), message@),
            r->Ok_0@.len() == 44,
            base64_standard_decode(str_bytes(r->Ok_0@)) == Some(
                hmac_sha256(str_bytes(self.secret_text()), str_bytes(message@)),
            ),
            hmac_sha256(str_bytes(self.secret_text()), str_bytes(message@)).len() == 32,
    {
        let tag = match hmac_sha256_tag(self.secret_key.as_str().as_bytes(), message.as_bytes()) {
            Ok(t) => t,
            Err(_) => return Err(TradeError::InvalidKeyLength),
        };
        proof {
            crate::crypto::lemma_base64_standard_len(tag@);
        }
        Ok(base64_encode(tag.as_slice()))
    }

    /// Starts the login at `timestamp` (seconds since the epoch): the client
    /// is marked logging in, and the request to send carries the API key, the
    /// passphrase, the timestamp and the signature of
    /// `<timestamp>GET/users/self/verify`.
    pub fn begin_login(&mut self, timestamp: u64) -> (q: OkxLoginWebSocketRequest)
        ensures
            final(self).status() == ConnectionStatus::LoggingIn,
            old(self).same_setup(final(self)),
            final(self).reconnects() == old(self).reconnects(),
            q.op@ == "login"@,
            q.args@.len() == 1,
            q.args@[0].api_key@ == old(self).api_key_text(),
            q.args@[0].passphrase@ == old(self).passphrase_text(),
            q.args@[0].timestamp@ == decimal_text(timestamp as nat),
            q.args@[0].sign@ == okx_signature(old(self).secret_text(), login_sign_text(timestamp)),
    {
        self.connection_status = ConnectionStatus::LoggingIn;
        let ts = decimal_string(timestamp);
        let sign_text = join_text(ts.as_str(), "GET/users/self/verify");
        let sign = match self.generate_signature(sign_text.as_str()) {
            Ok(s) => s,
            Err(_) => String::new(),
        };
        let login = OkxLoginRequest {
            api_key: self.api_key.clone(),
            passphrase: self.passphrase.clone(),
            timestamp: ts,
            sign,
        };
        let mut args: Vec<OkxLoginRequest> = Vec::new();
        args.push(login);
        OkxLoginWebSocketRequest { op: "login".to_string(), args }
    }

    /// Starts the login stamped with the system clock (seconds since the
    /// epoch), as `begin_login` does; `None`, with nothing changed, when the
    /// system clock is set before the epoch.
    pub fn begin_login_now(&mut self) -> (r: Option<OkxLoginWebSocketRequest>)
        ensures
            old(self).same_setup(final(self)),
            final(self).reconnects() == old(self).reconnects(),
            r is None ==> final(self).status() == old(self).status(),
            r matches Some(q) ==> {
                &&& final(self).status() == ConnectionStatus::LoggingIn
                &&& q.op@ == "login"@
                &&& q.args@.len() == 1
                &&& q.args@[0].api_key@ == old(self).api_key_text()
                &&& q.args@[0].passphrase@ == old(self).passphrase_text()
                &&& exists|timestamp: u64|
                    q.args@[0].timestamp@ == decimal_text(timestamp as nat) && q.args@[0].sign@
                        == okx_signature(old(self).secret_text(), login_sign_text(timestamp))
            },
    {
        match system_now_parts() {
            Some(p) => Some(self.begin_login(p.0)),
            None => None,
        }
    }

    /// A message read from the websocket that parsed as a login answer. One
    /// whose event is `login` is taken (`true`): code `0` logs the client in,
    /// any other sends it back to connected. Any other message is left for
    /// the request it answers (`false`), and the state is kept.
    pub fn login_answered(&mut self, response: &OkxLoginResponse) -> (taken: bool)
        ensures
            old(self).same_setup(final(self)),
            final(self).reconnects() == old(self).reconnects(),
            taken == (response.event@ == "login"@),
            taken && response.code@ == "0"@ ==> final(self).status() == ConnectionStatus::LoggedIn,
            taken && response.code@ != "0"@ ==> final(self).status() == ConnectionStatus::Connected,
            !taken ==> final(self).status() == old(self).status(),
    {
        if !crate::text::str_equal(response.event.as_str(), "login") {
            return false;
        }
        if crate::text::str_equal(response.code.as_str(), "0") {
            self.connection_status = ConnectionStatus::LoggedIn;
        } else {
            self.connection_status = ConnectionStatus::Connected;
        }
        true
    }

    /// One look for the login's answer, the `polls`-th: logged in ends the
    /// wait with success, back to connected ends it with a failed login;
    /// otherwise the wait goes on (`None`) until the last look, which ends it
    /// with a timeout.
    pub fn login_poll(&self, polls: u32) -> (r: Option<Result<(), TradeError>>)
        ensures
            self.status() == ConnectionStatus::LoggedIn ==> r == Some(Ok::<(), TradeError>(())),
            self.status() == ConnectionStatus::Connected ==> r == Some(
                Err::<(), TradeError>(TradeError::OkxLoginFailed),
            ),
            self.status() != ConnectionStatus::LoggedIn && self.status() != ConnectionStatus::Connected
                ==> (if polls >= LOGIN_POLLS {
                r == Some(Err::<(), TradeError>(TradeError::OkxLoginTimeout))
            } else {
                r is None
            }),
    {
        match self.connection_status {
            ConnectionStatus::LoggedIn => Some(Ok(())),
            ConnectionStatus::Connected => Some(Err(TradeError::OkxLoginFailed)),
            _ => {
                if polls >= LOGIN_POLLS {
                    Some(Err(TradeError::OkxLoginTimeout))
                } else {
                    None
                }
            },
        }
    }

    /// A request for `op` carrying `args` as its only argument, with a fresh
    /// random id, when the client is logged in and the system's random
    /// source answers.
    pub fn prepare_request<T>(&self, op: &str, args: T) -> (r: Result<OkxWebSocketRequest<Vec<T>>, TradeError>)
        ensures
            self.status() != ConnectionStatus::LoggedIn ==> r == Err::<OkxWebSocketRequest<Vec<T>>, TradeError>(
                TradeError::NotLoggedIn,
            ),
            self.status() == ConnectionStatus::LoggedIn ==> (r is Ok || r == Err::<
                OkxWebSocketRequest<Vec<T>>,
                TradeError,
            >(TradeError::RandomUnavailable)),
            r matches Ok(q) ==> q.op@ == op@ && q.id@.len() == 36 && q.args is Some && q.args->0@
                == seq![args],
    {
        let mut list: Vec<T> = Vec::new();
        list.push(args);
        let r = self.prepare_batch_request(op, list);
        proof {
            if r is Ok {
                assert(r->Ok_0.args->0@ =~= seq![args]);
            }
        }
        r
    }

    /// A request for `op` carrying each of `args` as one argument, in order
    /// (a batch: one argument per order), with a fresh random id, when the
    /// client is logged in and the system's random source answers.
    pub fn prepare_batch_request<T>(&self, op: &str, args: Vec<T>) -> (r: Result<
        OkxWebSocketRequest<Vec<T>>,
        TradeError,
    >)
        ensures
            self.status() != ConnectionStatus::LoggedIn ==> r == Err::<OkxWebSocketRequest<Vec<T>>, TradeError>(
                TradeError::NotLoggedIn,
            ),
            self.status() == ConnectionStatus::LoggedIn ==> (r is Ok || r == Err::<
                OkxWebSocketRequest<Vec<T>>,
                TradeError,
            >(TradeError::RandomUnavailable)),
            r matches Ok(q) ==> q.op@ == op@ && q.id@.len() == 36 && q.args is Some && q.args->0@ == args@,
    {
        if self.connection_status != ConnectionStatus::LoggedIn {
            return Err(TradeError::NotLoggedIn);
        }
        let id = match new_request_id() {
            Some(i) => i,
            None => return Err(TradeError::RandomUnavailable),
        };
        Ok(OkxWebSocketRequest { id, op: op.to_string(), args: Some(args) })
    }

    /// An answer with code `0` is passed on; any other is an error with the
    /// answer's code and message.
    pub fn check_response<T>(response: OkxWebSocketResponse<T>) -> (r: Result<OkxWebSocketResponse<T>, TradeError>)
        ensures
            response.code@ == "0"@ ==> r == Ok::<OkxWebSocketResponse<T>, TradeError>(response),
            response.code@ != "0"@ ==> r == Err::<OkxWebSocketResponse<T>, TradeError>(
                TradeError::OkxApi { okx_code: response.code, msg: response.msg },
            ),
    {
        if crate::text::str_equal(response.code.as_str(), "0") {
            Ok(response)
        } else {
            Err(TradeError::OkxApi { okx_code: response.code, msg: response.msg })
        }
    }

    /// A new order of the given type.
    fn order(
        inst_id: &str,
        side: OkxOrderSide,
        td_mode: OkxTradeMode,
        ord_type: OkxOrderType,
        price: Option<&str>,
        size: &str,
        pos_side: Option<OkxPositionSide>,
        client_order_id: Option<String>,
        tag: Option<String>,
        reduce_only: Option<bool>,
    ) -> (q: OkxPlaceOrderRequest)
        ensures
            is_order(
                q,
                inst_id@,
                side,
                td_mode,
                ord_type,
                super::opt_str(price),
                size@,
                pos_side,
                client_order_id,
                tag,
                reduce_only,
            ),
    {
        let px = match price {
            Some(p) => Some(p.to_string()),
            None => None,
        };
        let pos = match pos_side {
            Some(p) => Some(p.as_str().to_string()),
            None => None,
        };
        OkxPlaceOrderRequest {
            inst_id: inst_id.to_string(),
            td_mode: td_mode.as_str().to_string(),
            side: side.as_str().to_string(),
            ord_type: ord_type.as_str().to_string(),
            sz: size.to_string(),
            px,
            pos_side: pos,
            cl_ord_id: client_order_id,
            tag,
            reduce_only,
        }
    }

    /// A limit order at `price`.
    pub fn limit_order_request(
        inst_id: &str,
        side: OkxOrderSide,
        td_mode: OkxTradeMode,
        price: &str,
        size: &str,
        pos_side: Option<OkxPositionSide>,
        client_order_id: Option<String>,
        tag: Option<String>,
        reduce_only: Option<bool>,
    ) -> (q: OkxPlaceOrderRequest)
        ensures
            is_order(
                q,
                inst_id@,
                side,
                td_mode,
                OkxOrderType::Limit,
                Some(price@),
                size@,
                pos_side,
                client_order_id,
                tag,
                reduce_only,
            ),
    {
        Self::order(
            inst_id,
            side,
            td_mode,
            OkxOrderType::Limit,
            Some(price),
            size,
            pos_side,
            client_order_id,
            tag,
            reduce_only,
        )
    }

    /// A market order, without a price.
    pub fn market_order_request(
        inst_id: &str,
        side: OkxOrderSide,
        td_mode: OkxTradeMode,
        size: &str,
        pos_side: Option<OkxPositionSide>,
        client_order_id: Option<String>,
        tag: Option<String>,
        reduce_only: Option<bool>,
    ) -> (q: OkxPlaceOrderRequest)
        ensures
            is_order(
                q,
                inst_id@,
                side,
                td_mode,
                OkxOrderType::Market,
                None,
                size@,
                pos_side,
                client_order_id,
                tag,
                reduce_only,
            ),
    {
        Self::order(
            inst_id,
            side,
            td_mode,
            OkxOrderType::Market,
            None,
            size,
            pos_side,
            client_order_id,
            tag,
            reduce_only,
        )
    }

    /// A post-only order at `price`.
    pub fn post_only_order_request(
        inst_id: &str,
        side: OkxOrderSide,
        td_mode: OkxTradeMode,
        price: &str,
        size: &str,
        pos_side: Option<OkxPositionSide>,
        client_order_id: Option<String>,
        tag: Option<String>,
        reduce_only: Option<bool>,
    ) -> (q: OkxPlaceOrderRequest)
        ensures
            is_order(
                q,
                inst_id@,
                side,
                td_mode,
                OkxOrderType::PostOnly,
                Some(price@),
                size@,
                pos_side,
                client_order_id,
                tag,
                reduce_only,
            ),
    {
        Self::order(
            inst_id,
            side,
            td_mode,
            OkxOrderType::PostOnly,
            Some(price),
            size,
            pos_side,
            client_order_id,
            tag,
            reduce_only,
        )
    }

    /// A cancellation, which must name the order by its id or by the
    /// client's id.
    pub fn cancel_order_request(
        inst_id: &str,
        order_id: Option<String>,
        client_order_id: Option<String>,
    ) -> (r: Result<OkxCancelOrderRequest, TradeError>)
        ensures
            r is Err <==> order_id is None && client_order_id is None,
            r is Err ==> r == Err::<OkxCancelOrderRequest, TradeError>(TradeError::MissingOrderId),
            r matches Ok(q) ==> q.inst_id@ == inst_id@ && q.ord_id == order_id && q.cl_ord_id
                == client_order_id,
    {
        if order_id.is_none() && client_order_id.is_none() {
            return Err(TradeError::MissingOrderId);
        }
        Ok(OkxCancelOrderRequest { inst_id: inst_id.to_string(), ord_id: order_id, cl_ord_id: client_order_id })
    }

    /// An amendment, which must name the order by its id or by the client's
    /// id, and give a new size or a new price.
    pub fn amend_order_request(
        inst_id: &str,
        order_id: Option<String>,
        client_order_id: Option<String>,
        new_size: Option<String>,
        new_price: Option<String>,
    ) -> (r: Result<OkxAmendOrderRequest, TradeError>)
        ensures
            order_id is None && client_order_id is None ==> r == Err::<
                OkxAmendOrderRequest,
                TradeError,
            >(TradeError::MissingOrderId),
            !(order_id is None && client_order_id is None) && new_size is None && new_price is None
                ==> r == Err::<OkxAmendOrderRequest, TradeError>(TradeError::MissingAmendment),
            r is Ok <==> !(order_id is None && client_order_id is None) && !(new_size is None
                && new_price is None),
            r matches Ok(q) ==> q.inst_id@ == inst_id@ && q.ord_id == order_id && q.cl_ord_id
                == client_order_id && q.new_sz == new_size && q.new_px == new_price,
    {
        if order_id.is_none() && client_order_id.is_none() {
            return Err(TradeError::MissingOrderId);
        }
        if new_size.is_none() && new_price.is_none() {
            return Err(TradeError::MissingAmendment);
        }
        Ok(
            OkxAmendOrderRequest {
                inst_id: inst_id.to_string(),
                ord_id: order_id,
                cl_ord_id: client_order_id,
                new_sz: new_size,
                new_px: new_price,
            },
        )
    }
}

} // verus!
