use std::cell::RefCell;

use icap_gateway::config::Config;
use icap_gateway::icap_client::IcapClient;
use icap_gateway::icap_server::IcapServer;
use icap_gateway::proxy::Proxy;
use icap_gateway::utils::{format_error, generate_random_id, is_valid_port, tagged};
use icap_gateway::verdict::Verdict;
use icap_gateway::worker::Worker;
use icap_gateway::zmq_client::{ZmqClient, ZmqSocket};

#[test]
fn test_config_load() {
    let config = Config::load();
    assert_eq!(config.icap_server_addr, "127.0.0.1:1344");
    assert_eq!(config.listen_addr, "0.0.0.0:8080");
    assert!(!config.fallback_mode);
}

#[test]
fn test_icap_server_new() {
    let zmq_client = ZmqClient::new("tcp://127.0.0.1:5555".to_string());
    let server = IcapServer::new("0.0.0.0:1344".to_string(), zmq_client);
    assert_eq!(server.listen_addr, "0.0.0.0:1344");
}

#[test]
fn test_worker_new() {
    let worker = Worker::new("tcp://*:5555".to_string());
    assert_eq!(worker.bind_addr, "tcp://*:5555");
}

#[test]
fn test_zmq_client_new() {
    let client = ZmqClient::new("tcp://127.0.0.1:5555".to_string());
    assert_eq!(client.addr, "tcp://127.0.0.1:5555");
}

struct MockSocket {
    pub sent: RefCell<Vec<u8>>,
    pub to_receive: Vec<u8>,
}

impl ZmqSocket for MockSocket {
    fn send(&self, content: &[u8], _flags: i32) -> Result<(), String> {
        self.sent.replace(content.to_vec());
        Ok(())
    }

    fn recv_msg(&self, _flags: i32) -> Result<Vec<u8>, String> {
        Ok(self.to_receive.clone())
    }
}

#[test]
fn test_send_and_receive() {
    let mock = MockSocket { sent: RefCell::new(vec![]), to_receive: b"scan_result".to_vec() };
    let content = b"test_content";
    let result = ZmqClient::send_and_receive_with_socket(&mock, content).unwrap();
    assert_eq!(result, b"scan_result");
    assert_eq!(&*mock.sent.borrow(), content);
}

struct BrokenSocket {
    pub send_fails: bool,
    pub received: RefCell<u32>,
}

impl ZmqSocket for BrokenSocket {
    fn send(&self, _content: &[u8], _flags: i32) -> Result<(), String> {
        if self.send_fails {
            Err("send failed".to_string())
        } else {
            Ok(())
        }
    }

    fn recv_msg(&self, _flags: i32) -> Result<Vec<u8>, String> {
        *self.received.borrow_mut() += 1;
        Err("timed out".to_string())
    }
}

#[test]
fn test_send_failure_ends_the_exchange() {
    let socket = BrokenSocket { send_fails: true, received: RefCell::new(0) };
    let result = ZmqClient::send_and_receive_with_socket(&socket, b"x");
    assert_eq!(result, Err("send failed".to_string()));
    assert_eq!(*socket.received.borrow(), 0);
}

#[test]
fn test_receive_failure_is_returned() {
    let socket = BrokenSocket { send_fails: false, received: RefCell::new(0) };
    let result = ZmqClient::send_and_receive_with_socket(&socket, b"x");
    assert_eq!(result, Err("timed out".to_string()));
    assert_eq!(*socket.received.borrow(), 1);
    let verdict = ZmqClient::inspect_with_socket(&socket, b"x");
    assert_eq!(verdict, Err("timed out".to_string()));
}

#[test]
fn test_inspect_reads_the_reply() {
    let same = MockSocket { sent: RefCell::new(vec![]), to_receive: b"hello".to_vec() };
    assert_eq!(ZmqClient::inspect_with_socket(&same, b"hello"), Ok(Verdict::Allow));
    assert_eq!(&*same.sent.borrow(), b"hello");
    let changed = MockSocket { sent: RefCell::new(vec![]), to_receive: b"hullo".to_vec() };
    assert_eq!(
        ZmqClient::inspect_with_socket(&changed, b"hello"),
        Ok(Verdict::Modify(b"hullo".to_vec()))
    );
    let refused = MockSocket { sent: RefCell::new(vec![]), to_receive: b"BLOCKED".to_vec() };
    assert_eq!(
        ZmqClient::inspect_with_socket(&refused, b"hello"),
        Ok(Verdict::Block(b"Blocked by policy".to_vec()))
    );
    let mentions = MockSocket { sent: RefCell::new(vec![]), to_receive: b"not BLOCKED".to_vec() };
    assert_eq!(
        ZmqClient::inspect_with_socket(&mentions, b"hello"),
        Ok(Verdict::Modify(b"not BLOCKED".to_vec()))
    );
}

#[test]
fn test_icap_client_new() {
    let client = IcapClient::new("127.0.0.1:1344".to_string(), 5000);
    assert_eq!(client.server_addr, "127.0.0.1:1344");
    assert_eq!(client.timeout_ms, 5000);
    let copy = client.clone();
    assert_eq!(copy.server_addr, "127.0.0.1:1344");
    assert_eq!(copy.timeout_ms, 5000);
}

#[test]
fn test_proxy_new() {
    let config = Config {
        icap_server_addr: "127.0.0.1:1344".to_string(),
        listen_addr: "0.0.0.0:8080".to_string(),
        fallback_mode: false,
    };
    let proxy = Proxy::new(&config);
    assert_eq!(proxy.icap_client.server_addr, "127.0.0.1:1344");
    assert_eq!(proxy.icap_client.timeout_ms, 5000);
    assert!(!proxy.fail_open);
    let open = Proxy::new(&Config { fallback_mode: true, ..Config::load() });
    assert!(open.fail_open);
}

#[test]
fn test_clones_keep_their_fields() {
    let client = ZmqClient::new("tcp://127.0.0.1:5555".to_string());
    let copy = client.clone();
    assert_eq!(copy.addr, "tcp://127.0.0.1:5555");
    assert_eq!(client.addr, "tcp://127.0.0.1:5555");
    let proxy = Proxy::new(&Config { fallback_mode: true, ..Config::load() });
    let copy = proxy.clone();
    assert_eq!(copy.icap_client.server_addr, "127.0.0.1:1344");
    assert_eq!(copy.icap_client.timeout_ms, 5000);
    assert!(copy.fail_open);
    assert_eq!(proxy.icap_client.server_addr, "127.0.0.1:1344");
}

#[test]
fn test_is_valid_port() {
    assert!(!is_valid_port(0));
    assert!(is_valid_port(1));
    assert!(is_valid_port(80));
    assert!(is_valid_port(65535));
}

#[test]
fn test_format_error() {
    assert_eq!(format_error("boom"), "Error: boom");
    assert_eq!(format_error(42), "Error: 42");
    assert_eq!(format_error(String::new()), "Error: ");
}

#[test]
fn test_tagged() {
    assert_eq!(tagged("INFO", "info message"), "[INFO] info message");
    assert_eq!(tagged("", ""), "[] ");
}

#[test]
fn test_generate_random_id() {
    assert_eq!(generate_random_id(0), "");
    let id = generate_random_id(24);
    assert_eq!(id.len(), 24);
    assert_eq!(id.chars().count(), 24);
    assert!(id.chars().all(|c| c.is_ascii_alphanumeric()));
    let long = generate_random_id(400);
    assert_eq!(long.len(), 400);
    assert!(long.chars().all(|c| c.is_ascii_alphanumeric()));
    assert_ne!(generate_random_id(32), generate_random_id(32));
}

#[test]
fn test_channel_pool() {
    let mut pool = icap_gateway::pool::ChannelPool::new(3);
    assert_eq!(pool.size(), 3);
    assert_eq!(pool.in_flight(), 0);
    assert_eq!(pool.checkout(), Some(0));
    assert_eq!(pool.checkout(), Some(1));
    assert_eq!(pool.in_flight(), 2);
    assert!(pool.give_back(0));
    assert!(!pool.give_back(0));
    assert!(!pool.give_back(2));
    assert!(!pool.give_back(3));
    assert_eq!(pool.in_flight(), 1);
    assert_eq!(pool.checkout(), Some(0));
    assert_eq!(pool.checkout(), Some(2));
    assert_eq!(pool.checkout(), None);
    assert_eq!(pool.in_flight(), 3);
    assert!(pool.give_back(1));
    assert_eq!(pool.checkout(), Some(1));
    let mut none = icap_gateway::pool::ChannelPool::new(0);
    assert_eq!(none.size(), 0);
    assert_eq!(none.checkout(), None);
    assert!(!none.give_back(0));
}
