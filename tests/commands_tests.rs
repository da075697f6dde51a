use tokens::commands::{
    authorization_object, delete_client, is_displayable, list_clients, logout_client, AddCommand,
    DeleteCommand, Format, GetCommand, ListCommand, LogoutCommand,
};
use tokens::config::ConfigManager;
use tokens::oauth::Action;
use tokens::types::{AuthConfig, ConfigFile};

fn two_clients() -> ConfigFile {
    ConfigFile {
        clients: [
            (
                "test1".to_string(),
                AuthConfig {
                    auth_url: "https://auth1.com".to_string(),
                    client_id: "client_id_1".to_string(),
                    refresh_token: Some("token1".to_string()),
                    secret: None,
                },
            ),
            (
                "test2".to_string(),
                AuthConfig {
                    auth_url: "https://auth2.com".to_string(),
                    client_id: "client_id_2".to_string(),
                    refresh_token: None,
                    secret: None,
                },
            ),
        ]
        .into_iter()
        .collect(),
    }
}

#[test]
fn general_tests_test_list_clients() {
    let mut config = two_clients();

    let table = list_clients(&mut config);
    let table_string = table.to_string();

    assert!(table_string.contains("Nickname"));
    assert!(table_string.contains("ClientId"));
    assert!(table_string.contains("test1"));
    assert!(table_string.contains("client_id_1"));
    assert!(table_string.contains("test2"));
    assert!(table_string.contains("client_id_2"));
}

#[test]
fn general_tests_test_delete_client() {
    let mut config = two_clients();

    delete_client("test1", &mut config);

    let target = ConfigFile {
        clients: [(
            "test2".to_string(),
            AuthConfig {
                auth_url: "https://auth2.com".to_string(),
                client_id: "client_id_2".to_string(),
                refresh_token: None,
                secret: None,
            },
        )]
        .into_iter()
        .collect(),
    };

    assert_eq!(config, target);
}

#[test]
fn list_test_list_clients() {
    let config = two_clients();

    let config_manager = ConfigManager::new();
    let clients = config_manager.list_clients(&config);

    let mut table = prettytable::Table::new();
    table.add_row(prettytable::Row::new(vec![
        prettytable::Cell::new("Nickname"),
        prettytable::Cell::new("ClientId"),
        prettytable::Cell::new("URL"),
    ]));
    for (nickname, config) in clients {
        table.add_row(prettytable::Row::new(vec![
            prettytable::Cell::new(nickname),
            prettytable::Cell::new(&config.client_id),
            prettytable::Cell::new(&config.auth_url),
        ]));
    }

    let table_string = table.to_string();

    assert!(table_string.contains("Nickname"));
    assert!(table_string.contains("ClientId"));
    assert!(table_string.contains("test1"));
    assert!(table_string.contains("client_id_1"));
    assert!(table_string.contains("test2"));
    assert!(table_string.contains("client_id_2"));
    assert!(table_string.contains("https://auth2.com"));
}

#[test]
fn list_of_empty_registry_has_only_header() {
    let text = ListCommand.render(&ConfigFile::default());
    assert!(text.contains("Nickname"));
    assert!(text.contains("URL"));
    assert!(text.contains('+'));
    assert_eq!(text.lines().filter(|l| l.starts_with('|')).count(), 1);
}

#[test]
fn logout_client_forgets_only_the_token() {
    let mut config = two_clients();
    assert!(logout_client("test1", &mut config));
    let c = ConfigManager::new().get_client(&config, "test1").unwrap();
    assert_eq!(c.refresh_token, None);
    assert_eq!(c.client_id, "client_id_1");
    assert!(!logout_client("nonexistent_client", &mut config));
}

#[test]
fn add_command_with_nickname() {
    let mut config = ConfigFile::default();
    let add_command = AddCommand {
        nickname: Some("test_client".to_string()),
        auth_url: "https://example.com".to_string(),
        client_id: "client123".to_string(),
        secret: None,
    };
    assert_eq!(add_command.apply(&mut config), "test_client");
    let added = ConfigManager::new().get_client(&config, "test_client").unwrap();
    assert_eq!(added.auth_url, "https://example.com");
    assert_eq!(added.client_id, "client123");
    assert_eq!(added.refresh_token, None);
}

#[test]
fn add_command_defaults_nickname_to_client_id() {
    let mut config = ConfigFile::default();
    let add_command = AddCommand {
        nickname: None,
        auth_url: "https://example.com".to_string(),
        client_id: "client123".to_string(),
        secret: Some("secret".to_string()),
    };
    assert_eq!(add_command.apply(&mut config), "client123");
    let added = ConfigManager::new().get_client(&config, "client123").unwrap();
    assert_eq!(added.secret, Some("secret".to_string()));
}

#[test]
fn delete_and_logout_commands() {
    let mut config = two_clients();
    assert!(LogoutCommand { nickname: "test1".to_string() }.apply(&mut config));
    assert!(DeleteCommand { nickname: "test2".to_string() }.apply(&mut config));
    assert!(!DeleteCommand { nickname: "test2".to_string() }.apply(&mut config));
    assert_eq!(config.clients.len(), 1);
    assert_eq!(config.clients[0].1.refresh_token, None);
}

#[test]
fn header_format_wraps_bearer_value() {
    let get = GetCommand {
        nickname: "test_client".to_string(),
        refresh_token: false,
        format: Some(Format::Header),
        scopes: vec![],
    };
    assert_eq!(
        get.render(&"test_access_token".to_string()),
        "{\"Authorization\":\"Bearer test_access_token\"}"
    );
    assert_eq!(get.render(&"a\"b".to_string()), "{\"Authorization\":\"Bearer a\\\"b\"}");
}

#[test]
fn plain_format_prints_token() {
    let get = GetCommand {
        nickname: "c".to_string(),
        refresh_token: false,
        format: None,
        scopes: vec![],
    };
    assert_eq!(get.render(&"tok".to_string()), "tok");
}

#[test]
fn authorization_object_frames_json_value() {
    assert_eq!(
        authorization_object(&"\"Bearer x\"".to_string()),
        "{\"Authorization\":\"Bearer x\"}"
    );
}

#[test]
fn get_command_begins_with_refresh_grant() {
    let get = GetCommand {
        nickname: "test_client".to_string(),
        refresh_token: true,
        format: None,
        scopes: vec!["read".to_string(), "write".to_string()],
    };
    let auth = AuthConfig {
        auth_url: "https://example.com".to_string(),
        client_id: "test-client".to_string(),
        refresh_token: Some("existing_refresh_token".to_string()),
        secret: None,
    };
    let (acq, first) = get.begin(&auth);
    assert!(acq.want_refresh_token_output);
    match first {
        Action::Send(r) => {
            assert_eq!(r.url, "https://example.com/protocol/openid-connect/token");
            assert!(r.form.contains(&("scope".to_string(), "read write".to_string())));
            assert!(r.form.contains(&("grant_type".to_string(), "refresh_token".to_string())));
        }
        other => panic!("expected a request, got {:?}", other),
    }
}

#[test]
fn header_format_escapes_control_characters() {
    let get = GetCommand {
        nickname: "c".to_string(),
        refresh_token: false,
        format: Some(Format::Header),
        scopes: vec![],
    };
    assert_eq!(
        get.render(&"\u{1}\n\\\u{1f}".to_string()),
        "{\"Authorization\":\"Bearer \\u0001\\n\\\\\\u001f\"}"
    );
}

#[test]
fn escape_character_makes_registry_undisplayable() {
    let mut config = two_clients();
    assert!(is_displayable(&config));
    assert!(is_displayable(&ConfigFile::default()));
    ConfigManager::new().add_client(
        &mut config,
        "bad".to_string(),
        AuthConfig {
            auth_url: "https://x".to_string(),
            client_id: "\u{1b}[\u{a4f9}\u{a4fc}".to_string(),
            refresh_token: None,
            secret: None,
        },
    );
    assert!(!is_displayable(&config));
    assert!(ConfigManager::new().remove_client(&mut config, "bad"));
    assert!(is_displayable(&config));
}
