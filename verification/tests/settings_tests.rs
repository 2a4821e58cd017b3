use keyoverlay::error::{display_error, ErrorStatus, ExitStatus};
use keyoverlay::gui::{keys_json, GuiEvent, GuiState};
use keyoverlay::helper::{hash_of, is_first_run};
use keyoverlay::settings::{
    make_config, KeyboardSettings, ServerSettings, Settings, WebSettings,
};
use keyoverlay::text::usize_to_string;

#[test]
fn default_server_settings() {
    let s = ServerSettings::default();
    assert_eq!(s.ip, "127.0.0.1");
    assert_eq!(s.port, 3120);
}

#[test]
fn default_web_settings() {
    let s = WebSettings::default();
    assert_eq!(s.websocket_endpoint, "/ws");
    assert_eq!(s.local_file_path, "/static");
}

#[test]
fn default_keyboard_settings() {
    let s = KeyboardSettings::default();
    assert_eq!(s.keys, vec!["Z".to_string(), "X".to_string()]);
    assert_eq!(s.reset, "End");
}

#[test]
fn default_settings_compose_the_sections() {
    let s = Settings::default();
    assert_eq!(s.server.port, 3120);
    assert_eq!(s.web.websocket_endpoint, "/ws");
    assert_eq!(s.keyboard.reset, "End");
}

#[test]
fn server_address_joins_ip_and_port() {
    let s = ServerSettings { ip: "0.0.0.0".to_string(), port: 8080 };
    assert_eq!(s.address(), "0.0.0.0:8080");
    assert_eq!(ServerSettings::default().address(), "127.0.0.1:3120");
}

#[test]
fn make_config_renders_the_exact_text() {
    let text = make_config(
        7685,
        7686,
        "[ \"Z\", \"X\" ]".to_string(),
        "\"End\"".to_string(),
    );
    assert_eq!(
        text,
        "{\n\t\"web_port\": 7685,\n\t\"socket_port\": 7686,\n\t\"keys\": [ \"Z\", \"X\" ],\n\t\"reset\": \"End\"\n}"
    );
}

#[test]
fn keys_json_quotes_and_separates_entries() {
    let keys = vec!["Z".to_string(), "X".to_string()];
    assert_eq!(keys_json(&keys), "[ \"Z\", \"X\" ]");
    assert_eq!(keys_json(&vec!["Z".to_string()]), "[ \"Z\" ]");
    assert_eq!(keys_json(&Vec::new()), "[  ]");
}

#[test]
fn gui_state_tracks_client_count() {
    let mut g = GuiState::new(vec!["Z".to_string()], "End".to_string(), String::new());
    assert_eq!(g.client_count, 0);
    g.process_event(&GuiEvent::ConnectionsUpdate(5));
    assert_eq!(g.client_count, 5);
}

#[test]
fn gui_state_rebuilds_the_configuration_text() {
    let mut g = GuiState::new(
        vec!["Z".to_string(), "X".to_string()],
        "End".to_string(),
        String::new(),
    );
    g.build_json();
    assert_eq!(
        g.json,
        "{\n\t\"web_port\": 7685,\n\t\"socket_port\": 7686,\n\t\"keys\": [ \"Z\", \"X\" ],\n\t\"reset\": \"End\"\n}"
    );
}

#[test]
fn error_message_names_the_thread() {
    assert_eq!(
        display_error("server", "boom"),
        "An error occured while running the server thread\n\nboom"
    );
}

#[test]
fn exit_codes() {
    assert_eq!(ExitStatus::Success.code(), 0);
    assert_eq!(ExitStatus::Failure.code(), 1);
    assert_eq!(ErrorStatus::SUCCESS.code(), 0);
    assert_eq!(ErrorStatus::FAILURE.code(), 1);
}

#[test]
fn decimal_rendering() {
    assert_eq!(usize_to_string(0), "0");
    assert_eq!(usize_to_string(7), "7");
    assert_eq!(usize_to_string(10), "10");
    assert_eq!(usize_to_string(7685), "7685");
    assert_eq!(usize_to_string(usize::MAX), usize::MAX.to_string());
}

#[test]
fn equal_values_hash_equal() {
    let a = ServerSettings { ip: "1.2.3.4".to_string(), port: 80 };
    let b = ServerSettings { ip: "1.2.3.4".to_string(), port: 80 };
    assert_eq!(hash_of(&a), hash_of(&b));
}

#[test]
fn fatal_change_detection() {
    let base = Settings::default();
    let mut changed_server = Settings::default();
    changed_server.server.port = 9999;
    let mut changed_keys = Settings::default();
    changed_keys.keyboard.reset = "Home".to_string();
    assert!(Settings::is_fatal_change(&base, &changed_server));
    assert!(!Settings::is_fatal_change(&base, &changed_keys));
    assert!(!Settings::is_fatal_change(&base, &Settings::default()));
}

#[test]
fn missing_configuration_file_means_first_run() {
    assert!(is_first_run("surely_absent_directory_zqx/settings.toml"));
}
