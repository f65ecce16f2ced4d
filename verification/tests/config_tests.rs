use openkakao_cli::config::OpenKakaoConfig;

#[test]
fn default_config_is_safe() {
    let config = OpenKakaoConfig::default();
    assert!(!config.mode.unattended);
    assert!(!config.send.allow_non_interactive);
    assert!(!config.watch.allow_side_effects);
    assert!(config.auth.password_cmd.is_none());
    assert!(config.auth.email_cmd.is_none());
    assert_eq!(config.safety.min_unattended_send_interval_secs, Some(10));
    assert_eq!(config.safety.min_hook_interval_secs, Some(2));
    assert_eq!(config.safety.min_webhook_interval_secs, Some(2));
    assert_eq!(config.safety.hook_timeout_secs, Some(20));
    assert_eq!(config.safety.webhook_timeout_secs, Some(10));
    assert!(!config.safety.allow_insecure_webhooks);
    assert!(!config.safety.allow_loco_write);
}

use openkakao_cli::config::SafetyConfig;

#[test]
fn default_config_permits_no_writes() {
    let config = OpenKakaoConfig::default();
    assert!(!config.safety.loco_write_permitted());
    assert!(!config.safety.ax_send_permitted("anything"));
    assert!(!config.safety.allow_ax_send);
    assert!(config.safety.allowed_send_chats.is_empty());
}

#[test]
fn ax_send_needs_both_switch_and_allowlist() {
    let mut safety = SafetyConfig::default();
    safety.allowed_send_chats = vec!["Memo".to_string()];
    assert!(!safety.ax_send_permitted("Memo"));
    safety.allow_ax_send = true;
    assert!(safety.ax_send_permitted("Memo"));
    assert!(!safety.ax_send_permitted("Memo "));
    assert!(!safety.ax_send_permitted("Other"));
}

#[test]
fn effective_intervals_use_defaults() {
    let mut safety = SafetyConfig::default();
    safety.min_hook_interval_secs = None;
    safety.webhook_timeout_secs = Some(3);
    assert_eq!(safety.min_unattended_send_interval(), 10);
    assert_eq!(safety.min_hook_interval(), 2);
    assert_eq!(safety.webhook_timeout(), 3);
    assert_eq!(safety.hook_timeout(), 20);
    assert_eq!(safety.min_webhook_interval(), 2);
}

#[test]
fn missing_config_file_gives_defaults() {
    let c = OpenKakaoConfig::or_default(None);
    assert!(!c.mode.unattended);
    let mut custom = OpenKakaoConfig::default();
    custom.mode.unattended = true;
    assert!(OpenKakaoConfig::or_default(Some(custom)).mode.unattended);
}
