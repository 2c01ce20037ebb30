//! The networking configuration, the connection selection logic, and the
//! server builder chain.

use distant::config::{AccessControl, NetworkConfig};
use distant::manager::ManagerState;
use distant::select::{selected_index, use_or_lookup_connection_id, LookupError};
use distant::server::{Server, ServerConfig, Shutdown, TcpServerBuilder};

#[test]
fn access_control_maps_to_unix_modes() {
    assert_eq!(AccessControl::Owner.into_mode(), 0o600);
    assert_eq!(AccessControl::Group.into_mode(), 0o660);
    assert_eq!(AccessControl::Anyone.into_mode(), 0o666);
    assert_eq!(AccessControl::default(), AccessControl::Owner);
}

#[test]
fn network_config_merge_prefers_self() {
    let a = NetworkConfig {
        access: Some(AccessControl::Group),
        unix_socket: None,
        windows_pipe: Some("pipe-a".to_string()),
    };
    let b = NetworkConfig {
        access: Some(AccessControl::Anyone),
        unix_socket: Some("/tmp/sock-b".to_string()),
        windows_pipe: Some("pipe-b".to_string()),
    };
    let merged = a.merge(b);
    assert_eq!(merged.access, Some(AccessControl::Group));
    assert_eq!(merged.unix_socket, Some("/tmp/sock-b".to_string()));
    assert_eq!(merged.windows_pipe, Some("pipe-a".to_string()));
}

#[test]
fn network_config_candidates_fall_back_to_defaults() {
    let with_override = NetworkConfig {
        access: None,
        unix_socket: Some("/custom.sock".to_string()),
        windows_pipe: Some("custom-pipe".to_string()),
    };
    assert_eq!(
        with_override.to_unix_socket_path_candidates("/user.sock", "/global.sock"),
        vec!["/custom.sock".to_string()]
    );
    assert_eq!(
        with_override.to_windows_pipe_name_candidates("user-pipe", "global-pipe"),
        vec!["custom-pipe".to_string()]
    );
    assert_eq!(with_override.as_opt(), Some(&"/custom.sock".to_string()));

    let without = NetworkConfig::default();
    assert_eq!(
        without.to_unix_socket_path_candidates("/user.sock", "/global.sock"),
        vec!["/user.sock".to_string(), "/global.sock".to_string()]
    );
    assert_eq!(
        without.to_windows_pipe_name_candidates("user-pipe", "global-pipe"),
        vec!["user-pipe".to_string(), "global-pipe".to_string()]
    );
    assert_eq!(without.as_opt(), None);
}

#[test]
fn explicit_connection_id_wins() {
    let list = vec![10, 20];
    assert_eq!(use_or_lookup_connection_id(Some(99), 10, &list), Ok((99, false)));
}

#[test]
fn cached_selection_is_used_while_listed() {
    let list = vec![10, 20];
    assert_eq!(use_or_lookup_connection_id(None, 20, &list), Ok((20, false)));
}

#[test]
fn no_connections_is_an_error() {
    let list: Vec<u64> = Vec::new();
    assert_eq!(
        use_or_lookup_connection_id(None, 20, &list),
        Err(LookupError::NoConnections)
    );
}

#[test]
fn multiple_connections_without_a_choice_is_an_error() {
    let list = vec![10, 30];
    assert_eq!(
        use_or_lookup_connection_id(None, 20, &list),
        Err(LookupError::MultipleConnections)
    );
}

#[test]
fn a_sole_connection_is_adopted_and_cached() {
    let list = vec![30];
    // The stale cached id 20 is replaced; `true` says the cache must be
    // rewritten.
    assert_eq!(use_or_lookup_connection_id(None, 20, &list), Ok((30, true)));
}

#[test]
fn prompt_default_highlights_the_cached_selection() {
    let list = vec![10, 20, 30];
    assert_eq!(selected_index(&list, 20), 1);
    assert_eq!(selected_index(&list, 99), 0);
}

#[test]
fn builder_chain_assembles_a_server() {
    let _with_handler = TcpServerBuilder::default()
        .config(ServerConfig { shutdown: Shutdown::AfterIdle(1000) })
        .handler("my handler");

    // The plain server builder path works the same way.
    let _b = Server::new()
        .config(ServerConfig { shutdown: Shutdown::Never })
        .handler(42u32)
        .into_tcp_builder();
}

#[test]
fn manager_channels_get_unique_ids_and_independent_routes() {
    let mut manager = ManagerState::new();
    let ch1 = manager.open_channel(100);
    let ch2 = manager.open_channel(200);
    assert_ne!(ch1, ch2);
    assert_eq!(manager.route_of(ch1), Some(&100));
    assert_eq!(manager.route_of(ch2), Some(&200));

    manager.close_channel(ch1);
    assert_eq!(manager.route_of(ch1), None);
    assert_eq!(manager.route_of(ch2), Some(&200));

    // A closed channel's id is never reused.
    let ch3 = manager.open_channel(300);
    assert_ne!(ch3, ch1);
    assert_ne!(ch3, ch2);
}
