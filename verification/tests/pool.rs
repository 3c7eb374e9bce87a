use trend_arb::web_socket::utils::{wait_util_ms, SingleThreadSharedData};
use trend_arb::web_socket::ws_connection::{ws_endpoint, WsConnectionPool, WsPoolError, MAX_CONN_COUNT};
use trend_arb::web_socket::OpCode;

fn pairs(names: &[&str]) -> Vec<String> {
    names.iter().map(|s| s.to_string()).collect()
}

#[test]
fn pool_starts_empty() {
    let p = WsConnectionPool::new("Binance", "wss://x", true, 2);
    assert_eq!(p.market_code(), "Binance");
    assert_eq!(p.url(), "wss://x");
    assert!(p.is_deflate());
    assert!(!p.get_state());
    assert_eq!(p.get_next_idx(), (0, 2));
    assert!(p.get_connected_conn().is_empty());
    assert_eq!(p.init_connection_check(0), Err(WsPoolError::NotInitialized));
}

#[test]
fn next_idx_prefers_partly_filled_slot() {
    let mut p = WsConnectionPool::new("M", "wss://x", false, 2);
    p.record_subscription("a", 0);
    assert_eq!(p.get_next_idx(), (0, 1));
    p.record_subscription("b", 0);
    assert_eq!(p.get_next_idx(), (1, 2));
    p.record_subscription("c", 3);
    assert_eq!(p.get_next_idx(), (3, 1));
    assert_eq!(p.get_sub_pairs(0), pairs(&["a", "b"]));
    assert_eq!(p.conn_of("c"), Some(3));
    assert_eq!(p.conn_of("zz"), None);
}

#[test]
fn next_idx_when_every_slot_is_full() {
    let mut p = WsConnectionPool::new("M", "wss://x", false, 1);
    for i in 0..MAX_CONN_COUNT {
        p.record_subscription(&format!("p{}", i), i as u8);
    }
    assert_eq!(p.get_next_idx(), (MAX_CONN_COUNT as u8, 1));
}

#[test]
fn record_moves_and_remove_forgets() {
    let mut p = WsConnectionPool::new("M", "wss://x", false, 5);
    p.record_subscription("a", 1);
    p.record_subscription("a", 2);
    assert_eq!(p.conn_of("a"), Some(2));
    assert!(p.get_sub_pairs(1).is_empty());
    assert_eq!(p.remove_pair("a"), Some(2));
    assert_eq!(p.remove_pair("a"), None);
    assert_eq!(p.conn_of("a"), None);
}

#[test]
fn batches_fill_slots_in_order() {
    let mut p = WsConnectionPool::new("M", "wss://x", false, 3);
    p.set_link_sate(true);
    p.record_subscription("x", 0);
    let wanted = pairs(&["x", "a", "b", "c", "d", "e"]);
    let mut pending = p.filter_unsubscribed(&wanted);
    assert_eq!(pending, pairs(&["a", "b", "c", "d", "e"]));
    let (idx, batch) = p.subscribe_batch(&mut pending, None);
    assert_eq!(idx, 0);
    assert_eq!(batch, pairs(&["a", "b"]));
    p.record_subscriptions(batch, idx);
    let (idx, batch) = p.subscribe_batch(&mut pending, Some(2));
    assert_eq!(idx, 1);
    assert_eq!(batch, pairs(&["c", "d"]));
    p.record_subscriptions(batch, idx);
    let (idx, batch) = p.subscribe_batch(&mut pending, None);
    assert_eq!((idx, batch), (1, pairs(&["e"])));
    assert!(pending.is_empty());
}

#[test]
fn open_and_clear_slots() {
    let mut p = WsConnectionPool::new("M", "wss://x", false, 3);
    p.set_link_sate(true);
    assert_eq!(p.init_connection_check(4), Ok(true));
    p.set_conn_status(4, true);
    p.set_conn_status(2, true);
    assert_eq!(p.init_connection_check(4), Ok(false));
    assert!(p.is_conn_open(2));
    assert!(p.get_connected_conn().is_empty());
    p.record_subscriptions(pairs(&["a", "b"]), 4);
    p.record_subscription("c", 2);
    assert_eq!(p.get_connected_conn(), vec![2u8, 4]);
    let removed = p.clear_conn_status(4);
    assert_eq!(removed, pairs(&["a", "b"]));
    assert!(!p.is_conn_open(4));
    assert_eq!(p.get_connected_conn(), vec![2u8]);
    assert_eq!(p.get_sub_pairs(2), pairs(&["c"]));
    assert!(p.get_sub_pairs(4).is_empty());
    p.restore_connection(4, removed);
    assert!(p.is_conn_open(4));
    assert_eq!(p.get_sub_pairs(4), pairs(&["a", "b"]));
}

#[test]
fn unsubscribe_groups_by_slot() {
    let mut p = WsConnectionPool::new("M", "wss://x", false, 3);
    p.record_subscription("a", 0);
    p.record_subscription("b", 1);
    p.record_subscription("c", 0);
    let groups = p.take_pairs_by_conn(&pairs(&["c", "zz", "b", "a"]));
    assert_eq!(groups.len(), MAX_CONN_COUNT);
    assert_eq!(groups[0], pairs(&["c", "a"]));
    assert_eq!(groups[1], pairs(&["b"]));
    assert!(groups[2].is_empty());
    assert!(p.get_sub_pairs(0).is_empty());
}

#[test]
fn resubscribe_slot_uses_own_or_next() {
    let mut p = WsConnectionPool::new("M", "wss://x", false, 3);
    p.record_subscription("a", 5);
    assert_eq!(p.resubscribe_slot("a"), 5);
    assert_eq!(p.resubscribe_slot("b"), 5);
    assert_eq!(p.conn_of("b"), Some(5));
}

#[test]
fn chunks_of_pairs() {
    let v = pairs(&["a", "b", "c", "d", "e"]);
    let c = WsConnectionPool::chunk_pairs(&v, 2);
    assert_eq!(c, vec![pairs(&["a", "b"]), pairs(&["c", "d"]), pairs(&["e"])]);
    assert_eq!(WsConnectionPool::chunk_pairs(&v, 9), vec![v.clone()]);
    assert!(WsConnectionPool::chunk_pairs(&Vec::new(), 3).is_empty());
}

#[test]
fn split_vec_round_robin() {
    let v = pairs(&["a", "b", "c", "d", "e"]);
    let s = WsConnectionPool::split_vec(v.clone(), 2);
    assert_eq!(s, vec![pairs(&["a", "c", "e"]), pairs(&["b", "d"])]);
    let s = WsConnectionPool::split_vec(v, 10);
    assert_eq!(s.len(), 5);
    assert_eq!(s[4], pairs(&["e"]));
    assert!(WsConnectionPool::split_vec(Vec::new(), 0).is_empty());
}

#[test]
fn headers_get_a_stamp() {
    let mut p = WsConnectionPool::new("M", "wss://x", false, 3);
    assert!(p.build_header(5).is_empty());
    p.set_headers(vec![("X-Key".to_string(), "k".to_string())]);
    assert_eq!(
        p.build_header(1700000000123),
        vec![
            ("X-Key".to_string(), "k".to_string()),
            ("X-Stamp".to_string(), "1700000000123".to_string())
        ]
    );
}

#[test]
fn pacing_of_writes() {
    let mut p = WsConnectionPool::new("M", "wss://x", false, 3);
    p.set_write_wait_time(300);
    p.set_connect_wait_time(50);
    p.set_min_conn_count(2);
    p.set_url("wss://y");
    assert_eq!(p.write_wait_time(), 300);
    assert_eq!(p.connect_wait_time(), 50);
    assert_eq!(p.min_conn_count(), 2);
    assert_eq!(p.url(), "wss://y");
    p.record_write(3, 1000);
    assert_eq!(p.last_write_time(3), 1000);
    assert_eq!(wait_util_ms(p.write_wait_time(), p.last_write_time(3), 1100), 200);
    assert_eq!(wait_util_ms(300, 1000, 1300), 0);
    assert_eq!(wait_util_ms(300, 1000, 2000), 0);
    assert_eq!(wait_util_ms(300, 1000, 900), 0);
}

#[test]
fn shared_data_holds_value() {
    let mut d = SingleThreadSharedData::new(vec![1u8]);
    d.get_mut().push(2);
    assert_eq!(d.get(), &vec![1u8, 2]);
    assert_ne!(OpCode::Text, OpCode::Binary);
}

#[test]
fn clock_stamped_pacing_and_headers() {
    let mut p = WsConnectionPool::new("M", "wss://x", false, 3);
    p.record_write_now(1);
    let last = p.last_write_time(1);
    let wait = trend_arb::web_socket::utils::wait_now_ms(p.clock_start(), 300, last);
    assert!(wait > 0 && wait <= 300);
    assert!(p.build_header_now().unwrap().is_empty());
    p.set_headers(vec![("A".to_string(), "b".to_string())]);
    let h = p.build_header_now().unwrap();
    assert_eq!(h.len(), 2);
    assert_eq!(h[1].0, "X-Stamp");
    assert!(h[1].1.parse::<i64>().unwrap() > 1_600_000_000_000);
}

#[test]
fn endpoint_of_tls_address_with_port() {
    let e = ws_endpoint("wss://stream.binance.com:9443/stream").unwrap();
    assert_eq!(e.host, "stream.binance.com");
    assert_eq!(e.port, 9443);
    assert!(e.tls);
}

#[test]
fn endpoint_takes_scheme_default_port() {
    let e = ws_endpoint("wss://api.gateio.ws/ws/v4/").unwrap();
    assert_eq!(e.host, "api.gateio.ws");
    assert_eq!(e.port, 443);
    assert!(e.tls);
    let plain = ws_endpoint("ws://localhost/feed").unwrap();
    assert_eq!(plain.host, "localhost");
    assert_eq!(plain.port, 80);
    assert!(!plain.tls);
}

#[test]
fn endpoint_refuses_what_does_not_parse() {
    assert_eq!(ws_endpoint("not a url"), Err(WsPoolError::InvalidUrl));
}

#[test]
fn endpoint_refuses_address_without_host() {
    assert_eq!(ws_endpoint("data:text/plain,hello"), Err(WsPoolError::MissingHost));
}
