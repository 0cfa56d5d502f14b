use lure::config::{ListenerConfig, LureConfig, ProxyConfig, Table};

#[test]
fn listener_defaults() {
    let listener = ListenerConfig::default();
    assert_eq!(listener.bind, "127.0.0.1:25577");
    assert_eq!(listener.max_connections, 8196);
}

#[test]
fn proxy_defaults() {
    let proxy = ProxyConfig::default();
    assert_eq!(proxy.compression_threshold, 256);
    assert_eq!(proxy.max_players, 4000);
    assert!(proxy.online_mode);
    assert_eq!(proxy.player_forward_mode, "none");
    assert_eq!(proxy.player_limit, -1);
    assert!(!proxy.prevent_proxy_connections);
    assert_eq!(proxy.motd, "§dAnother Lure proxy");
    assert_eq!(proxy.favicon, "server-icon.png");
}

#[test]
fn config_defaults() {
    let config = LureConfig::default();
    assert_eq!(config.listener, ListenerConfig::default());
    assert_eq!(config.proxy, ProxyConfig::default());
    assert_eq!(config.hosts.len(), 1);
    assert_eq!(config.hosts.get(&"*".to_string()), Some("lobby".to_string()));
    assert_eq!(config.servers.len(), 1);
    assert_eq!(config.servers.get(&"lobby".to_string()), Some("127.0.0.1:25565".to_string()));
}

#[test]
fn table_holds_what_was_inserted() {
    let mut table = Table::new();
    assert_eq!(table.len(), 0);
    assert_eq!(table.get(&"a".to_string()), None);
    assert!(!table.contains_key(&"a".to_string()));
    table.insert("a".to_string(), "1".to_string());
    table.insert("b".to_string(), "2".to_string());
    assert_eq!(table.get(&"a".to_string()), Some("1".to_string()));
    assert_eq!(table.get(&"b".to_string()), Some("2".to_string()));
    assert_eq!(table.get(&"c".to_string()), None);
    assert!(table.contains_key(&"b".to_string()));
    assert_eq!(table.len(), 2);
}

#[test]
fn table_replaces_what_stood_under_a_key() {
    let mut table = Table::new();
    table.insert("a".to_string(), "1".to_string());
    table.insert("b".to_string(), "2".to_string());
    table.insert("a".to_string(), "3".to_string());
    assert_eq!(table.len(), 2);
    assert_eq!(table.get(&"a".to_string()), Some("3".to_string()));
    assert_eq!(table.entry(0), ("a".to_string(), "3".to_string()));
    assert_eq!(table.entry(1), ("b".to_string(), "2".to_string()));
}
