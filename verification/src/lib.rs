//! Trading clients for several spot exchanges: request construction and
//! signing, FIX message framing, websocket subscription bookkeeping and the
//! decisions of the connection loops.

pub mod clock;
pub mod crypto;
pub mod fix;
pub mod text;
pub mod trade;
pub mod web_socket;
pub mod deepdata;
