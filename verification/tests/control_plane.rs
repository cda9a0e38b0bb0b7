use fast_reverse_proxy::api::{
    check_authorization, connect, create_edge_check, delete_edge, delete_edges, goodbye, health,
    ok_port_response, record_tunnel, ApiError,
};
use fast_reverse_proxy::client::{
    api_url, handoff_target_string, mode_from_name, mode_name, pick_resolved, protocol_from_name,
    protocol_name, worker_target, ResolvedAddr,
};
use fast_reverse_proxy::manager::PortMap;
use fast_reverse_proxy::proxy::{Mode, Protocol};
use fast_reverse_proxy::state::{init_secrets, park_worker, take_worker, worker_auth_secret, State, Worker};
use fast_reverse_proxy::users::{add_user, delete_user, to_hex_lower, Configuration, Secret, UserError};
use fast_reverse_proxy::wire::encode_handoff_frame;

const KEY: &str = "k-alpha";
const OTHER_KEY: &str = "k-beta";

fn boot(max_tunnels: usize) -> State {
    let entries = vec![
        (
            "alpha".to_string(),
            Secret { max_tunnels, key: KEY.to_string() },
        ),
        (
            "beta".to_string(),
            Secret { max_tunnels: 3, key: OTHER_KEY.to_string() },
        ),
    ];
    init_secrets(&entries, Some(40000))
}

#[test]
fn s1_health_needs_no_auth() {
    let r = health();
    assert_eq!(r.code, 200);
    assert_eq!(r.body, "{\"status\":\"ok\"}");
}

#[test]
fn s2_auth_gate_on_connect() {
    let st = boot(5);
    let bad = connect(&st, &"wrong".to_string());
    assert_eq!(bad.code, 403);
    assert_eq!(bad.body, "{\"status\":\"forbidden\"}");
    let good = connect(&st, &KEY.to_string());
    assert_eq!(good.code, 200);
    assert_eq!(good.body, "{\"status\":\"ok\",\"worker\":40000}");
}

#[test]
fn connect_before_worker_server_reports_null() {
    let st = init_secrets(
        &vec![("alpha".to_string(), Secret { max_tunnels: 5, key: KEY.to_string() })],
        None,
    );
    let r = connect(&st, &KEY.to_string());
    assert_eq!(r.body, "{\"status\":\"ok\",\"worker\":null}");
}

#[test]
fn check_authorization_distinguishes_secrets() {
    let st = boot(5);
    assert_eq!(check_authorization(&st, &KEY.to_string()).code, 200);
    assert_eq!(check_authorization(&st, &OTHER_KEY.to_string()).code, 200);
    assert_eq!(check_authorization(&st, &"nope".to_string()).code, 403);
}

#[test]
fn create_edge_records_granted_port() {
    let mut st = boot(5);
    let token = KEY.to_string();
    assert!(create_edge_check(&st, &token, &"127.0.0.1:9001".to_string()).is_ok());
    record_tunnel(&mut st, &token, "t1".to_string(), "127.0.0.1:9001".to_string(), 4001);
    assert_eq!(st.secrets[0].active_tunnels.len(), 1);
    assert_eq!(st.secrets[0].active_tunnels[0].port, 4001);
    assert_eq!(st.secrets[0].active_tunnels[0].target, "127.0.0.1:9001");
    let ok = ok_port_response(4001);
    assert_eq!(ok.code, 200);
    assert_eq!(ok.body, "{\"status\":\"ok\",\"port\":4001}");
}

#[test]
fn s6_quota_returns_too_many_tunnels() {
    let mut st = boot(1);
    let token = KEY.to_string();
    assert!(create_edge_check(&st, &token, &"127.0.0.1:9001".to_string()).is_ok());
    record_tunnel(&mut st, &token, "t1".to_string(), "127.0.0.1:9001".to_string(), 4001);
    let second = create_edge_check(&st, &token, &"127.0.0.1:9002".to_string());
    assert_eq!(second, Err(ApiError::TooManyTunnels));
    let resp = ApiError::TooManyTunnels.response();
    assert_eq!(resp.code, 429);
    assert_eq!(resp.body, "{\"status\":\"too many tunnels\"}");
}

#[test]
fn create_edge_rejects_unknown_secret() {
    let st = boot(5);
    let r = create_edge_check(&st, &"intruder".to_string(), &"127.0.0.1:9001".to_string());
    assert_eq!(r, Err(ApiError::Forbidden));
    assert_eq!(ApiError::Forbidden.response().code, 403);
}

#[test]
fn duplicate_target_is_refused() {
    let mut st = boot(5);
    let token = KEY.to_string();
    let target = "127.0.0.1:9001".to_string();
    assert!(create_edge_check(&st, &token, &target).is_ok());
    record_tunnel(&mut st, &token, "t1".to_string(), target.clone(), 4001);
    let second = create_edge_check(&st, &token, &target);
    assert_eq!(second, Err(ApiError::DuplicateTunnel));
    let resp = ApiError::DuplicateTunnel.response();
    assert_eq!(resp.code, 400);
    assert_eq!(resp.body, "{\"status\":\"tunnel already exists\"}");
    // A different target under the same secret is still admitted.
    assert!(create_edge_check(&st, &token, &"127.0.0.1:9002".to_string()).is_ok());
}

#[test]
fn p7_create_then_delete_restores_state() {
    let mut st = boot(5);
    let token = KEY.to_string();
    record_tunnel(&mut st, &token, "pre".to_string(), "10.0.0.9:9000".to_string(), 4000);
    let tunnels_before = st.secrets[0].active_tunnels.len();
    let workers_before = st.secrets[0].workers.len();

    record_tunnel(&mut st, &token, "t1".to_string(), "127.0.0.1:9001".to_string(), 4001);
    let deleted = delete_edge(&mut st, &token, &"127.0.0.1:9001".to_string());
    assert_eq!(deleted, Ok(4001));
    assert_eq!(st.secrets[0].active_tunnels.len(), tunnels_before);
    assert_eq!(st.secrets[0].workers.len(), workers_before);
    assert_eq!(st.secrets[0].active_tunnels[0].port, 4000);
}

#[test]
fn delete_edge_unknown_target_is_reported() {
    let mut st = boot(5);
    let token = KEY.to_string();
    let r = delete_edge(&mut st, &token, &"10.1.1.1:9100".to_string());
    assert_eq!(r, Err(ApiError::NoSuchTunnel));
    assert_eq!(ApiError::NoSuchTunnel.response().code, 400);
    let r = delete_edge(&mut st, &"intruder".to_string(), &"x".to_string());
    assert_eq!(r, Err(ApiError::Forbidden));
}

#[test]
fn delete_edges_returns_all_ports_in_order() {
    let mut st = boot(5);
    let token = KEY.to_string();
    record_tunnel(&mut st, &token, "a".to_string(), "127.0.0.1:9001".to_string(), 4001);
    record_tunnel(&mut st, &token, "b".to_string(), "127.0.0.1:9002".to_string(), 4002);
    record_tunnel(&mut st, &token, "c".to_string(), "127.0.0.1:9003".to_string(), 4003);
    let ports = delete_edges(&mut st, &token).expect("known secret");
    assert_eq!(ports, vec![4001, 4002, 4003]);
    assert!(st.secrets[0].active_tunnels.is_empty());
}

#[test]
fn goodbye_drains_tunnels_and_workers() {
    let mut st = boot(5);
    let token = KEY.to_string();
    record_tunnel(&mut st, &token, "a".to_string(), "127.0.0.1:9001".to_string(), 4001);
    assert!(park_worker(&mut st, &token, Worker { client_addr: "c1".to_string(), worker_id: 1 }));
    assert!(park_worker(&mut st, &token, Worker { client_addr: "c2".to_string(), worker_id: 2 }));
    let (ports, workers) = goodbye(&mut st, &token).expect("known secret");
    assert_eq!(ports, vec![4001]);
    assert_eq!(workers.len(), 2);
    assert!(st.secrets[0].active_tunnels.is_empty());
    assert!(st.secrets[0].workers.is_empty());
    assert!(goodbye(&mut st, &"intruder".to_string()).is_err());
}

#[test]
fn p11_empty_pool_yields_no_worker_and_state_survives() {
    let mut st = boot(5);
    let token = KEY.to_string();
    let got = take_worker(&mut st, &token).expect("known secret");
    assert!(got.is_none());
    // The pool keeps working afterwards.
    assert!(park_worker(&mut st, &token, Worker { client_addr: "c1".to_string(), worker_id: 7 }));
    let got = take_worker(&mut st, &token).expect("known secret");
    assert_eq!(got.expect("one parked worker").worker_id, 7);
    assert!(st.secrets[0].workers.is_empty());
}

#[test]
fn worker_auth_line_is_normalized() {
    assert_eq!(worker_auth_secret("k-alpha\n"), "k-alpha");
    assert_eq!(worker_auth_secret("  k-alpha \r\n"), "k-alpha");
    assert_eq!(worker_auth_secret(""), "");
    assert_eq!(worker_auth_secret("k"), "");
}

#[test]
fn p4_worker_enters_pool_only_when_authenticated() {
    let mut st = boot(5);
    assert!(!park_worker(
        &mut st,
        &"intruder".to_string(),
        Worker { client_addr: "c".to_string(), worker_id: 1 },
    ));
    assert!(st.secrets.iter().all(|s| s.workers.is_empty()));
    assert!(take_worker(&mut st, &"intruder".to_string()).is_err());
}

#[test]
fn take_worker_removes_exactly_one_of_the_parked() {
    let mut st = boot(5);
    let token = KEY.to_string();
    for id in 0..5u64 {
        let w = Worker { client_addr: format!("c{}", id), worker_id: id };
        assert!(park_worker(&mut st, &token, w));
    }
    let taken = take_worker(&mut st, &token).unwrap().unwrap();
    assert!(taken.worker_id < 5);
    assert_eq!(st.secrets[0].workers.len(), 4);
    assert!(st.secrets[0].workers.iter().all(|w| w.worker_id != taken.worker_id));
}

#[test]
fn s5_two_parked_workers_serve_two_picks() {
    let mut st = boot(5);
    let token = KEY.to_string();
    assert!(park_worker(&mut st, &token, Worker { client_addr: "c1".to_string(), worker_id: 1 }));
    assert!(park_worker(&mut st, &token, Worker { client_addr: "c2".to_string(), worker_id: 2 }));
    let first = take_worker(&mut st, &token).unwrap().expect("two parked");
    let second = take_worker(&mut st, &token).unwrap().expect("one parked");
    assert_ne!(first.worker_id, second.worker_id);
    assert!(st.secrets[0].workers.is_empty());
    assert!(take_worker(&mut st, &token).unwrap().is_none());
}

#[test]
fn boot_with_duplicate_keys_keeps_one_secret() {
    let entries = vec![
        ("alpha".to_string(), Secret { max_tunnels: 2, key: KEY.to_string() }),
        ("alias".to_string(), Secret { max_tunnels: 4, key: KEY.to_string() }),
    ];
    let st = init_secrets(&entries, Some(40000));
    assert_eq!(st.secrets.len(), 1);
    assert_eq!(st.secrets[0].secret, KEY);
    assert_eq!(st.secrets[0].max_tunnels, 4);
}

#[test]
fn p2_ports_track_the_manager_map() {
    let mut st = boot(5);
    let token = KEY.to_string();
    let mut map = PortMap::new();

    // POST /edge: the manager grants a port, then the tunnel is recorded.
    assert!(create_edge_check(&st, &token, &"127.0.0.1:9001".to_string()).is_ok());
    assert!(!map.contains_port(4001));
    map.note_listen(Some(4001));
    record_tunnel(&mut st, &token, "t1".to_string(), "127.0.0.1:9001".to_string(), 4001);
    assert!(map.contains_port(4001));

    // A refused bind records nothing.
    map.note_listen(None);
    assert_eq!(map.ports.len(), 1);

    // DELETE /edge: the port leaves the state, then the map.
    let p = delete_edge(&mut st, &token, &"127.0.0.1:9001".to_string()).expect("tunnel exists");
    assert!(map.note_stop(p));
    assert!(!map.contains_port(p));

    // Stop is idempotent on unknown ports.
    assert!(!map.note_stop(p));
    assert!(!map.contains_port(p));
}

#[test]
fn add_user_lowercases_and_mints_hex_keys() {
    let mut cfg = Configuration { port: 8080, secrets: Vec::new() };
    add_user(&mut cfg, "Alice".to_string(), None).expect("fresh user");
    assert_eq!(cfg.secrets.len(), 1);
    assert_eq!(cfg.secrets[0].0, "alice");
    assert_eq!(cfg.secrets[0].1.max_tunnels, 5);
    let key = &cfg.secrets[0].1.key;
    assert_eq!(key.len(), 64);
    assert!(key.chars().all(|c| c.is_ascii_hexdigit() && !c.is_ascii_uppercase()));

    let dup = add_user(&mut cfg, "ALICE".to_string(), Some(9));
    assert_eq!(dup, Err(UserError::DuplicateUser));
    assert_eq!(cfg.secrets.len(), 1);

    add_user(&mut cfg, "Bob".to_string(), Some(9)).expect("fresh user");
    assert_eq!(cfg.secrets[1].1.max_tunnels, 9);
    assert_ne!(cfg.secrets[0].1.key, cfg.secrets[1].1.key);
}

#[test]
fn delete_user_by_lower_name_or_exact_name() {
    let mut cfg = Configuration { port: 8080, secrets: Vec::new() };
    add_user(&mut cfg, "Alice".to_string(), None).unwrap();
    add_user(&mut cfg, "Bob".to_string(), None).unwrap();
    delete_user(&mut cfg, "ALICE".to_string()).expect("lowercased name matches");
    assert_eq!(cfg.secrets.len(), 1);
    assert_eq!(cfg.secrets[0].0, "bob");
    let missing = delete_user(&mut cfg, "carol".to_string());
    assert_eq!(missing, Err(UserError::UserNotFound));
    delete_user(&mut cfg, "bob".to_string()).expect("exact name matches");
    assert!(cfg.secrets.is_empty());
}

#[test]
fn hex_rendering_is_exact() {
    assert_eq!(to_hex_lower(&vec![0x00, 0xAB, 0xFF]), "00abff");
    assert_eq!(to_hex_lower(&Vec::new()), "");
}

#[test]
fn pick_resolved_prefers_ipv4() {
    let addrs = vec![
        ResolvedAddr { is_ipv4: false, text: "[::1]:80".to_string() },
        ResolvedAddr { is_ipv4: true, text: "10.0.0.1:80".to_string() },
        ResolvedAddr { is_ipv4: true, text: "10.0.0.2:80".to_string() },
    ];
    assert_eq!(pick_resolved(&addrs), Some(1));
    let only_v6 = vec![ResolvedAddr { is_ipv4: false, text: "[::1]:80".to_string() }];
    assert_eq!(pick_resolved(&only_v6), Some(0));
    assert_eq!(pick_resolved(&Vec::new()), None);
}

#[test]
fn protocol_and_mode_names_round_trip() {
    for p in [Protocol::Tcp, Protocol::HAProxyV1, Protocol::HAProxyV2] {
        let n = protocol_name(&p);
        assert_eq!(protocol_from_name(&n), Some(p));
    }
    for m in [Mode::Reverse, Mode::HolePunch] {
        let n = mode_name(&m);
        assert_eq!(mode_from_name(&n), Some(m));
    }
    assert_eq!(protocol_name(&Protocol::HAProxyV1), "HAProxyV1");
    assert_eq!(mode_name(&Mode::HolePunch), "HolePunch");
    assert_eq!(protocol_from_name(&"tcp".to_string()), None);
    assert_eq!(mode_from_name(&"reverse".to_string()), None);
}

#[test]
fn client_side_urls_and_targets() {
    assert_eq!(
        api_url(&"http://edge:8080".to_string(), "/api/v1/connect"),
        "http://edge:8080/api/v1/connect"
    );
    assert_eq!(worker_target(&"198.51.100.7".to_string(), 40001), "198.51.100.7:40001");
}

#[test]
fn handoff_target_string_validates_frame_and_utf8() {
    let frame = encode_handoff_frame("10.0.0.1:8080");
    let target = handoff_target_string(&frame[1..]).expect("valid frame");
    assert_eq!(target, "10.0.0.1:8080");

    // A target that is not UTF-8 is refused even in a well-formed frame.
    let mut bad = vec![0x01];
    bad.extend_from_slice(&[0, 0, 0, 0, 0, 0, 0, 2]);
    bad.extend_from_slice(&[0xFF, 0xFE]);
    bad.push(0x02);
    assert!(handoff_target_string(&bad).is_none());

    // A corrupted marker is refused.
    let mut corrupt = frame[1..].to_vec();
    corrupt[0] = 0x00;
    assert!(handoff_target_string(&corrupt).is_none());
}
