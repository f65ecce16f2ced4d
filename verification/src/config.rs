//! The user's settings (`~/.config/openkakao/config.toml`) and the safety
//! defaults that hold when a setting is absent.
use vstd::prelude::*;

use crate::text::{chars_equal, chars_of};

verus! {

/// All settings.
#[derive(Debug, Clone)]
pub struct OpenKakaoConfig {
    pub mode: ModeConfig,
    pub send: SendConfig,
    pub watch: WatchConfig,
    pub auth: AuthConfig,
    pub safety: SafetyConfig,
}

#[derive(Debug, Clone)]
pub struct ModeConfig {
    pub unattended: bool,
}

#[derive(Debug, Clone)]
pub struct SendConfig {
    pub allow_non_interactive: bool,
    pub default_prefix: Option<bool>,
}

#[derive(Debug, Clone)]
pub struct WatchConfig {
    pub allow_side_effects: bool,
    pub default_max_reconnect: Option<u32>,
}

#[derive(Debug, Clone)]
pub struct AuthConfig {
    pub prefer_relogin: Option<bool>,
    pub auto_renew: Option<bool>,
    pub password_cmd: Option<String>,
    pub email_cmd: Option<String>,
}

#[derive(Debug, Clone)]
pub struct SafetyConfig {
    pub min_unattended_send_interval_secs: Option<u64>,
    pub min_hook_interval_secs: Option<u64>,
    pub min_webhook_interval_secs: Option<u64>,
    pub hook_timeout_secs: Option<u64>,
    pub webhook_timeout_secs: Option<u64>,
    pub allow_insecure_webhooks: bool,
    /// Enable LOCO write operations (send, delete, edit, react).
    /// Disabled by default to protect against account bans.
    pub allow_loco_write: bool,
    /// Enable sending through the KakaoTalk UI (`local-send`). Disabled by
    /// default; it also needs the chat in `allowed_send_chats`.
    pub allow_ax_send: bool,
    /// The exact chat-list display names that `local-send` may send to.
    pub allowed_send_chats: Vec<String>,
}

/// The interval between unattended sends when none is configured (seconds).
pub const DEFAULT_MIN_UNATTENDED_SEND_INTERVAL_SECS: u64 = 10;

/// The interval between hook runs when none is configured (seconds).
pub const DEFAULT_MIN_HOOK_INTERVAL_SECS: u64 = 2;

/// The interval between webhook calls when none is configured (seconds).
pub const DEFAULT_MIN_WEBHOOK_INTERVAL_SECS: u64 = 2;

/// The hook timeout when none is configured (seconds).
pub const DEFAULT_HOOK_TIMEOUT_SECS: u64 = 20;

/// The webhook timeout when none is configured (seconds).
pub const DEFAULT_WEBHOOK_TIMEOUT_SECS: u64 = 10;

impl Default for ModeConfig {
    fn default() -> (c: Self)
        ensures
            !c.unattended,
    {
        ModeConfig { unattended: false }
    }
}

impl Default for SendConfig {
    fn default() -> (c: Self)
        ensures
            !c.allow_non_interactive,
            c.default_prefix is None,
    {
        SendConfig { allow_non_interactive: false, default_prefix: None }
    }
}

impl Default for WatchConfig {
    fn default() -> (c: Self)
        ensures
            !c.allow_side_effects,
            c.default_max_reconnect is None,
    {
        WatchConfig { allow_side_effects: false, default_max_reconnect: None }
    }
}

impl Default for AuthConfig {
    fn default() -> (c: Self)
        ensures
            c.prefer_relogin is None,
            c.auto_renew is None,
            c.password_cmd is None,
            c.email_cmd is None,
    {
        AuthConfig { prefer_relogin: None, auto_renew: None, password_cmd: None, email_cmd: None }
    }
}

impl SafetyConfig {
    /// The safety settings that hold when none are configured.
    pub open spec fn is_default(&self) -> bool {
        &&& self.min_unattended_send_interval_secs == Some(10u64)
        &&& self.min_hook_interval_secs == Some(2u64)
        &&& self.min_webhook_interval_secs == Some(2u64)
        &&& self.hook_timeout_secs == Some(20u64)
        &&& self.webhook_timeout_secs == Some(10u64)
        &&& !self.allow_insecure_webhooks
        &&& !self.allow_loco_write
        &&& !self.allow_ax_send
        &&& self.allowed_send_chats@.len() == 0
    }

    /// `local-send` may send to the chat named `chat`: sending through the
    /// UI is enabled and the exact name is on the allowlist.
    pub open spec fn permits_ax_send(&self, chat: Seq<char>) -> bool {
        self.allow_ax_send && exists|i: int|
            0 <= i < self.allowed_send_chats@.len() && #[trigger] self.allowed_send_chats@[i]@
                == chat
    }

    /// Whether `local-send` may send to the chat whose display name is
    /// `chat` (exact match, no folding).
    pub fn ax_send_permitted(&self, chat: &str) -> (b: bool)
        ensures
            b == self.permits_ax_send(chat@),
    {
        if !self.allow_ax_send {
            return false;
        }
        let c = chars_of(chat);
        let mut i: usize = 0;
        while i < self.allowed_send_chats.len()
            invariant
                i <= self.allowed_send_chats@.len(),
                self.allow_ax_send,
                c@ == chat@,
                forall|j: int| 0 <= j < i ==> #[trigger] self.allowed_send_chats@[j]@ != chat@,
            decreases self.allowed_send_chats@.len() - i,
        {
            let a = chars_of(self.allowed_send_chats[i].as_str());
            if chars_equal(a.as_slice(), c.as_slice()) {
                assert(self.allowed_send_chats@[i as int]@ == chat@);
                return true;
            }
            i = i + 1;
        }
        false
    }

    /// Whether LOCO write operations (send, delete, edit, react) may run.
    pub fn loco_write_permitted(&self) -> (b: bool)
        ensures
            b == self.allow_loco_write,
    {
        self.allow_loco_write
    }

    /// The minimum interval between unattended sends, in seconds.
    pub fn min_unattended_send_interval(&self) -> (s: u64)
        ensures
            s == self.min_unattended_send_interval_secs.unwrap_or(10),
    {
        self.min_unattended_send_interval_secs.unwrap_or(DEFAULT_MIN_UNATTENDED_SEND_INTERVAL_SECS)
    }

    /// The minimum interval between hook runs, in seconds.
    pub fn min_hook_interval(&self) -> (s: u64)
        ensures
            s == self.min_hook_interval_secs.unwrap_or(2),
    {
        self.min_hook_interval_secs.unwrap_or(DEFAULT_MIN_HOOK_INTERVAL_SECS)
    }

    /// The minimum interval between webhook calls, in seconds.
    pub fn min_webhook_interval(&self) -> (s: u64)
        ensures
            s == self.min_webhook_interval_secs.unwrap_or(2),
    {
        self.min_webhook_interval_secs.unwrap_or(DEFAULT_MIN_WEBHOOK_INTERVAL_SECS)
    }

    /// The hook timeout, in seconds.
    pub fn hook_timeout(&self) -> (s: u64)
        ensures
            s == self.hook_timeout_secs.unwrap_or(20),
    {
        self.hook_timeout_secs.unwrap_or(DEFAULT_HOOK_TIMEOUT_SECS)
    }

    /// The webhook timeout, in seconds.
    pub fn webhook_timeout(&self) -> (s: u64)
        ensures
            s == self.webhook_timeout_secs.unwrap_or(10),
    {
        self.webhook_timeout_secs.unwrap_or(DEFAULT_WEBHOOK_TIMEOUT_SECS)
    }
}

impl Default for SafetyConfig {
    fn default() -> (c: Self)
        ensures
            c.is_default(),
    {
        SafetyConfig {
            min_unattended_send_interval_secs: Some(DEFAULT_MIN_UNATTENDED_SEND_INTERVAL_SECS),
            min_hook_interval_secs: Some(DEFAULT_MIN_HOOK_INTERVAL_SECS),
            min_webhook_interval_secs: Some(DEFAULT_MIN_WEBHOOK_INTERVAL_SECS),
            hook_timeout_secs: Some(DEFAULT_HOOK_TIMEOUT_SECS),
            webhook_timeout_secs: Some(DEFAULT_WEBHOOK_TIMEOUT_SECS),
            allow_insecure_webhooks: false,
            allow_loco_write: false,
            allow_ax_send: false,
            allowed_send_chats: Vec::new(),
        }
    }
}

impl OpenKakaoConfig {
    /// Every setting at its default: nothing unattended, no side effects, no
    /// credential commands, and the safety defaults.
    pub open spec fn is_default(&self) -> bool {
        &&& !self.mode.unattended
        &&& !self.send.allow_non_interactive
        &&& self.send.default_prefix is None
        &&& !self.watch.allow_side_effects
        &&& self.watch.default_max_reconnect is None
        &&& self.auth.prefer_relogin is None
        &&& self.auth.auto_renew is None
        &&& self.auth.password_cmd is None
        &&& self.auth.email_cmd is None
        &&& self.safety.is_default()
    }

    /// The settings that hold when a config file parsed to `parsed`, or
    /// the defaults when there is no config file.
    pub fn or_default(parsed: Option<OpenKakaoConfig>) -> (c: OpenKakaoConfig)
        ensures
            match parsed {
                Some(p) => c == p,
                None => c.is_default(),
            },
    {
        match parsed {
            Some(p) => p,
            None => OpenKakaoConfig::default(),
        }
    }
}

impl Default for OpenKakaoConfig {
    fn default() -> (c: Self)
        ensures
            c.is_default(),
    {
        OpenKakaoConfig {
            mode: ModeConfig::default(),
            send: SendConfig::default(),
            watch: WatchConfig::default(),
            auth: AuthConfig::default(),
            safety: SafetyConfig::default(),
        }
    }
}

/// The defaults are safe: nothing runs unattended, no watch side effects,
/// no credential commands, the send, hook and webhook intervals and
/// timeouts are 10, 2, 2, 20 and 10 seconds, insecure webhooks are refused,
/// and neither LOCO writes nor UI sends to any chat are permitted.
pub proof fn lemma_default_config_is_safe(c: OpenKakaoConfig, chat: Seq<char>)
    requires
        c.is_default(),
    ensures
        !c.mode.unattended,
        !c.send.allow_non_interactive,
        !c.watch.allow_side_effects,
        c.auth.password_cmd is None,
        c.auth.email_cmd is None,
        c.safety.min_unattended_send_interval_secs.unwrap_or(10) == 10,
        c.safety.min_hook_interval_secs.unwrap_or(2) == 2,
        c.safety.min_webhook_interval_secs.unwrap_or(2) == 2,
        c.safety.hook_timeout_secs.unwrap_or(20) == 20,
        c.safety.webhook_timeout_secs.unwrap_or(10) == 10,
        !c.safety.allow_insecure_webhooks,
        !c.safety.allow_loco_write,
        !c.safety.permits_ax_send(chat),
{
}

/// Only a listed chat can ever be sent to through the UI, whatever else is
/// configured.
pub proof fn lemma_ax_send_needs_allowlist(s: SafetyConfig, chat: Seq<char>)
    requires
        s.permits_ax_send(chat),
    ensures
        s.allow_ax_send,
        exists|i: int| 0 <= i < s.allowed_send_chats@.len() && s.allowed_send_chats@[i]@ == chat,
{
}

} // verus!
