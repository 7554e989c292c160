use vocab_core::config::join_url;
use vocab_core::config::ApiConfig;
use vocab_core::config::SessionConfig;
use vocab_core::language_label;
use vocab_core::Language;

#[test]
fn join_url_puts_exactly_one_slash_between() {
    assert_eq!(join_url("https://api.example.com", "translate"), "https://api.example.com/translate");
    assert_eq!(join_url("https://api.example.com/", "/translate"), "https://api.example.com/translate");
    assert_eq!(join_url("https://api.example.com//", "//translate"), "https://api.example.com/translate");
    assert_eq!(join_url("", ""), "/");
}

#[test]
fn session_defaults_match_the_shipped_configuration() {
    let config = SessionConfig::default();
    assert_eq!(config.max_cards, 20);
    assert_eq!(config.max_new_cards, 10);
    assert_eq!(config.stop_after_correct, 15);
    assert!(config.max_minutes.is_none());
}

#[test]
fn api_defaults_point_at_the_placeholder_host() {
    let config = ApiConfig::default();
    assert_eq!(config.base_url, "https://api.example.com");
    assert!(config.auth_token.is_empty());
}

#[test]
fn language_labels() {
    assert_eq!(language_label(Language::Dutch), "Dutch");
    assert_eq!(language_label(Language::English), "English");
}
