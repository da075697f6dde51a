use tokens::config::ConfigManager;
use tokens::types::{AuthConfig, ConfigFile};

fn client(url: &str, id: &str, refresh: Option<&str>) -> AuthConfig {
    AuthConfig {
        auth_url: url.to_string(),
        client_id: id.to_string(),
        refresh_token: refresh.map(|r| r.to_string()),
        secret: None,
    }
}

fn two_clients() -> ConfigFile {
    ConfigFile {
        clients: [
            (
                "test1".to_string(),
                AuthConfig {
                    auth_url: "https://auth1.com".to_string(),
                    client_id: "client_id_1".to_string(),
                    refresh_token: Some("token1".to_string()),
                    secret: None,
                },
            ),
            (
                "test2".to_string(),
                AuthConfig {
                    auth_url: "https://auth2.com".to_string(),
                    client_id: "client_id_2".to_string(),
                    refresh_token: None,
                    secret: None,
                },
            ),
        ]
        .into_iter()
        .collect(),
    }
}

#[test]
fn delete_test_delete_client() {
    let mut config = two_clients();

    let config_manager = ConfigManager::new();
    config_manager.remove_client(&mut config, "test1");

    let target = ConfigFile {
        clients: [(
            "test2".to_string(),
            AuthConfig {
                auth_url: "https://auth2.com".to_string(),
                client_id: "client_id_2".to_string(),
                refresh_token: None,
                secret: None,
            },
        )]
        .into_iter()
        .collect(),
    };

    assert_eq!(config, target);
}

#[test]
fn test_logout_client() {
    let mut config = two_clients();

    let config_manager = ConfigManager::new();
    if let Some(client) = config_manager.get_client_mut(&mut config, "test1") {
        client.refresh_token = None;
    }

    let target = ConfigFile {
        clients: [
            (
                "test1".to_string(),
                AuthConfig {
                    auth_url: "https://auth1.com".to_string(),
                    client_id: "client_id_1".to_string(),
                    refresh_token: None,
                    secret: None,
                },
            ),
            (
                "test2".to_string(),
                AuthConfig {
                    auth_url: "https://auth2.com".to_string(),
                    client_id: "client_id_2".to_string(),
                    refresh_token: None,
                    secret: None,
                },
            ),
        ]
        .into_iter()
        .collect(),
    };

    assert_eq!(config, target);
}

#[test]
fn remove_unknown_nickname_changes_nothing() {
    let mut config = two_clients();
    let removed = ConfigManager::new().remove_client(&mut config, "nobody");
    assert!(!removed);
    assert_eq!(config, two_clients());
    assert_eq!(config.clients.len(), 2);
    assert_eq!(config.clients[0].0, "test1");
    assert_eq!(config.clients[1].0, "test2");
}

#[test]
fn remove_known_nickname_reports_true() {
    let mut config = two_clients();
    assert!(ConfigManager::new().remove_client(&mut config, "test2"));
    assert!(ConfigManager::new().get_client(&config, "test2").is_none());
    assert!(ConfigManager::new().get_client(&config, "test1").is_some());
}

#[test]
fn nicknames_are_case_sensitive() {
    let config = two_clients();
    assert!(ConfigManager::new().get_client(&config, "TEST1").is_none());
}

#[test]
fn add_overwrites_existing_entry() {
    let mut config = two_clients();
    let manager = ConfigManager::new();
    manager.add_client(
        &mut config,
        "test1".to_string(),
        client("https://other.com", "other", None),
    );
    assert_eq!(config.clients.len(), 2);
    let got = manager.get_client(&config, "test1").unwrap();
    assert_eq!(got.auth_url, "https://other.com");
    assert_eq!(got.client_id, "other");
    assert_eq!(got.refresh_token, None);
}

#[test]
fn add_new_nickname_to_empty_registry() {
    let mut config = ConfigFile::default();
    let manager = ConfigManager::new();
    manager.add_client(&mut config, "a".to_string(), client("https://a", "ida", Some("r")));
    let got = manager.get_client(&config, "a").unwrap();
    assert_eq!(got.client_id, "ida");
    assert_eq!(got.refresh_token, Some("r".to_string()));
}

#[test]
fn get_client_mut_changes_stored_client() {
    let mut config = two_clients();
    let manager = ConfigManager::new();
    manager.get_client_mut(&mut config, "test2").unwrap().refresh_token = Some("fresh".to_string());
    assert_eq!(
        manager.get_client(&config, "test2").unwrap().refresh_token,
        Some("fresh".to_string())
    );
    assert!(manager.get_client_mut(&mut config, "missing").is_none());
}

#[test]
fn list_clients_gives_each_entry_once() {
    let mut config = two_clients();
    config.clients.push(("test1".to_string(), client("https://shadowed", "x", None)));
    let manager = ConfigManager::new();
    let listed = manager.list_clients(&config);
    assert_eq!(listed.len(), 2);
    let first = listed.iter().find(|(n, _)| n.as_str() == "test1").unwrap();
    assert_eq!(first.1.client_id, "client_id_1");
    assert!(listed.iter().any(|(n, c)| n.as_str() == "test2" && c.client_id == "client_id_2"));
}

#[test]
fn registries_compare_as_maps() {
    let a = two_clients();
    let mut b = two_clients();
    b.clients.reverse();
    assert_eq!(a, b);
    let mut c = two_clients();
    c.clients[1].1.refresh_token = Some("t".to_string());
    assert_ne!(a, c);
    assert_ne!(a, ConfigFile::default());
}
