use tonos_cli::front::{
    client_settings, client_settings_for, debug_level, default_endpoints, default_false,
    default_lifetime, default_map, default_out_of_sync, default_retries, default_timeout,
    default_url, default_wc, get_server_endpoints, logs_to_stderr, net_name_from_captures,
    plan_account_batches, resolve_net_name, AccountFilter, FrontConfig, Level, LevelFilter,
    MAINNET, TESTNET,
};
use tonos_cli::front::{
    client_creation_error, record_batch_reply, sending_endpoints, sending_endpoints_for,
    ACCOUNTS_COLLECTION, ACCOUNT_FIELDS,
};
use tonos_cli::{HD_PATH, LOCALNET, WORD_COUNT};

fn config(url: &str, endpoints: &[&str], project_id: Option<&str>) -> FrontConfig {
    FrontConfig {
        url: url.to_string(),
        wc: default_wc(),
        retries: default_retries(),
        timeout: default_timeout(),
        message_processing_timeout: default_timeout(),
        out_of_sync_threshold: default_out_of_sync(),
        verbose: default_false(),
        lifetime: default_lifetime(),
        project_id: project_id.map(|p| p.to_string()),
        access_key: None,
        endpoints: endpoints.iter().map(|e| e.to_string()).collect(),
    }
}

fn ids(f: &AccountFilter) -> Vec<String> {
    match f {
        AccountFilter::IdEq(x) => vec![x.clone()],
        AccountFilter::IdEqOr(x, rest) => {
            let mut v = vec![x.clone()];
            v.extend(ids(rest));
            v
        }
    }
}

#[test]
fn defaults_of_the_configuration() {
    assert_eq!(default_url(), "net.evercloud.dev");
    assert_eq!(default_wc(), 0);
    assert_eq!(default_retries(), 5);
    assert_eq!(default_timeout(), 40000);
    assert_eq!(default_out_of_sync(), 15);
    assert!(!default_false());
    assert_eq!(default_lifetime(), 60);
    assert!(default_endpoints().is_empty());
}

#[test]
fn endpoints_fall_back_to_the_url() {
    let c = config("net.evercloud.dev/", &[], None);
    assert_eq!(get_server_endpoints(&c), vec!["net.evercloud.dev".to_string()]);
}

#[test]
fn endpoints_are_trimmed_and_get_the_project_id() {
    let c = config("x", &["https://a.dev//", "https://b.dev"], Some("p1"));
    assert_eq!(
        get_server_endpoints(&c),
        vec!["https://a.dev/p1".to_string(), "https://b.dev/p1".to_string()]
    );
}

#[test]
fn default_map_lists_the_known_networks_in_order() {
    let m = default_map();
    let keys: Vec<&str> = m.iter().map(|(k, _)| k.as_str()).collect();
    assert_eq!(keys, vec![LOCALNET, MAINNET, TESTNET]);
    assert_eq!(m[0].1, vec!["http://0.0.0.0", "http://127.0.0.1", "http://localhost"]);
    assert_eq!(m[1].1, vec!["https://mainnet.evercloud.dev"]);
    assert_eq!(m[2].1, vec!["https://devnet.evercloud.dev"]);
}

#[test]
fn network_names_are_resolved_from_addresses() {
    assert_eq!(resolve_net_name("https://main.ton.dev").as_deref(), Some(MAINNET));
    assert_eq!(resolve_net_name("  http://net.everos.dev  ").as_deref(), Some(TESTNET));
    assert_eq!(resolve_net_name("main.evercloud.dev").as_deref(), Some(MAINNET));
    assert_eq!(resolve_net_name("main").as_deref(), Some(MAINNET));
    assert_eq!(resolve_net_name("dev").as_deref(), Some(TESTNET));
    assert_eq!(resolve_net_name("devnet").as_deref(), Some(TESTNET));
    assert_eq!(resolve_net_name("http://localhost:8080").as_deref(), Some(LOCALNET));
    assert_eq!(resolve_net_name("http://0.0.0.0").as_deref(), Some(LOCALNET));
    assert_eq!(resolve_net_name("https://foo.evercloud.dev"), None);
    assert_eq!(resolve_net_name("https://example.com"), None);
    assert_eq!(resolve_net_name("Main"), None);
}

#[test]
fn front_configs_compare_by_fields() {
    let a = config("u", &["e"], Some("p"));
    assert!(a == a.clone());
    let mut b = a.clone();
    b.endpoints.push("f".to_string());
    assert!(a != b);
}

#[test]
fn the_last_capture_counts() {
    let r = net_name_from_captures(
        "x",
        Some("main.evercloud.dev".to_string()),
        None,
        Some("net.everos.dev".to_string()),
    );
    assert_eq!(r.as_deref(), Some(TESTNET));
    let r = net_name_from_captures("localhost", Some("foo.evercloud.dev".to_string()), None, None);
    assert_eq!(r.as_deref(), Some(LOCALNET));
    assert_eq!(net_name_from_captures("x", None, None, None), None);
}

#[test]
fn client_settings_follow_the_configuration() {
    let mut c = config("https://main.ton.dev", &["https://e1/", "https://e2"], Some("pid"));
    c.retries = 200;
    c.access_key = Some("key".to_string());
    let s = client_settings(&c);
    assert_eq!(s.abi.workchain, 0);
    assert_eq!(s.abi.message_expiration_timeout, 60000);
    assert_eq!(s.crypto.mnemonic_word_count, WORD_COUNT);
    assert_eq!(s.crypto.hdkey_derivation_path, HD_PATH);
    assert_eq!(s.network.server_address, "https://main.ton.dev");
    assert_eq!(s.network.sending_endpoint_count, 2);
    assert_eq!(
        s.network.endpoints,
        Some(vec!["https://e1/pid".to_string(), "https://e2/pid".to_string()])
    );
    assert_eq!(s.network.message_retries_count, -56);
    assert_eq!(s.network.message_processing_timeout, 30000);
    assert_eq!(s.network.wait_for_timeout, 40000);
    assert_eq!(s.network.out_of_sync_threshold, 15000);
    assert_eq!(s.network.access_key.as_deref(), Some("key"));
}

#[test]
fn a_local_node_gets_one_sending_endpoint() {
    let c = config("http://127.0.0.1", &["http://a", "http://b", "http://c"], None);
    assert_eq!(client_settings(&c).network.sending_endpoint_count, 1);
    let c = config("x", &["a", "b"], None);
    assert_eq!(client_settings_for(&c, Some(LOCALNET.to_string())).network.sending_endpoint_count, 1);
    assert_eq!(client_settings_for(&c, None).network.sending_endpoint_count, 2);
    let c = config("http://127.0.0.1/", &["a", "b"], None);
    assert_eq!(client_settings_for(&c, None).network.sending_endpoint_count, 1);
}

#[test]
fn log_levels() {
    assert_eq!(debug_level(None), LevelFilter::Warn);
    assert_eq!(debug_level(Some("DEBUG")), LevelFilter::Debug);
    assert_eq!(debug_level(Some("Trace")), LevelFilter::Trace);
    assert_eq!(debug_level(Some("info")), LevelFilter::Debug);
    assert!(logs_to_stderr(Level::Error));
    assert!(logs_to_stderr(Level::Warn));
    assert!(!logs_to_stderr(Level::Info));
    assert!(!logs_to_stderr(Level::Trace));
}

#[test]
fn few_addresses_make_one_query() {
    let a: Vec<String> = vec!["a0".into(), "a1".into(), "a2".into()];
    let b = plan_account_batches(&a);
    assert_eq!(b.len(), 1);
    assert_eq!(b[0].limit, 4);
    assert_eq!(ids(&b[0].filter), vec!["a2", "a1", "a0", "a0"]);
    assert!(plan_account_batches(&vec![]).is_empty());
}

#[test]
fn many_addresses_make_several_queries() {
    let a: Vec<String> = (0..60).map(|i| format!("a{}", i)).collect();
    let b = plan_account_batches(&a);
    assert_eq!(b.len(), 2);
    assert_eq!(b[0].limit, 51);
    let first = ids(&b[0].filter);
    assert_eq!(first.len(), 51);
    assert_eq!(first[0], "a49");
    assert_eq!(first[49], "a0");
    assert_eq!(first[50], "a0");
    assert_eq!(b[1].limit, 10);
    let second = ids(&b[1].filter);
    assert_eq!(second[0], "a59");
    assert_eq!(second[9], "a51");
    assert!(!first.contains(&"a50".to_string()) && !second.contains(&"a50".to_string()));
    for batch in &b {
        assert_eq!(batch.limit as usize, ids(&batch.filter).len());
    }
}

#[test]
fn known_network_names_resolve_to_themselves() {
    for name in [MAINNET, TESTNET, LOCALNET] {
        assert_eq!(resolve_net_name(name).as_deref(), Some(name));
        let resolved = resolve_net_name(name).unwrap();
        assert!(default_map().iter().any(|(k, _)| *k == resolved));
    }
}

#[test]
fn endpoints_without_project_have_no_trailing_slash() {
    let c = config("u", &["a//", "b/", "c"], None);
    let e = get_server_endpoints(&c);
    assert_eq!(e.len(), 3);
    assert!(e.iter().all(|x| !x.ends_with('/')));
    let again = config("u", &e.iter().map(|s| s.as_str()).collect::<Vec<_>>(), None);
    assert_eq!(get_server_endpoints(&again), e);
}

#[test]
fn query_plan_bounds() {
    for n in [1usize, 49, 50, 51, 52, 101, 102, 250] {
        let a: Vec<String> = (0..n).map(|i| format!("a{}", i)).collect();
        let b = plan_account_batches(&a);
        assert!(!b.is_empty());
        for batch in &b {
            let names = ids(&batch.filter);
            assert!(batch.limit >= 2 && batch.limit <= 51);
            assert_eq!(batch.limit as usize, names.len());
            assert!(names.iter().all(|x| a.contains(x)));
        }
        if n <= 50 {
            assert_eq!(b.len(), 1);
            assert!(a.iter().all(|x| ids(&b[0].filter).contains(x)));
        }
    }
}

#[test]
fn resolving_a_resolved_name_gives_it_back() {
    for url in ["https://main.ton.dev", "net.everos.dev", "dev", "localhost", "main"] {
        let n = resolve_net_name(url).unwrap();
        assert_eq!(resolve_net_name(&n), Some(n.clone()));
    }
}

#[test]
fn sending_endpoints_without_bounds() {
    let mut c = config("https://main.evercloud.dev", &["a", "b", "c"], None);
    c.lifetime = u32::MAX;
    assert_eq!(sending_endpoints(&c), 3);
    let c = config("localhost:80", &["a", "b", "c"], None);
    assert_eq!(sending_endpoints(&c), 1);
    let many: Vec<String> = (0..257).map(|i| format!("e{}", i)).collect();
    let c = config("x", &many.iter().map(|s| s.as_str()).collect::<Vec<_>>(), None);
    assert_eq!(sending_endpoints_for(&c, None), 1);
}

#[test]
fn batch_replies_and_failures() {
    let mut rows = vec!["r0".to_string()];
    assert_eq!(record_batch_reply(&mut rows, Ok(vec!["r1".to_string(), "r2".to_string()])), Ok(()));
    assert_eq!(rows, vec!["r0", "r1", "r2"]);
    assert_eq!(
        record_batch_reply(&mut rows, Err("net down".to_string())),
        Err("failed to query account info: net down".to_string())
    );
    assert_eq!(rows.len(), 3);
    assert_eq!(client_creation_error("bad"), "failed to create tonclient: bad");
    assert_eq!(ACCOUNTS_COLLECTION, "accounts");
    assert_eq!(
        ACCOUNT_FIELDS,
        "\n    id\n    acc_type_name\n    balance(format: DEC)\n    last_paid\n    last_trans_lt\n    data\n    boc\n    code_hash\n"
    );
}
