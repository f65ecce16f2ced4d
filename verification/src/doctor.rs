//! The verdicts of `doctor`: for each thing it probes, the status and the
//! detail line it reports.
use vstd::prelude::*;

use crate::auth::{format_remaining, opt_str_view, remaining_spec, token_prefix, token_prefix_spec};
use crate::config::SafetyConfig;
use crate::local_db::{
    lookup, lookup_entry, parse_plist_entries, plist_parse, LocalDbStatus, PlistValue,
    PlistValueView,
};
use crate::text::{
    chars_of, decimal, push_decimal, push_signed_decimal, signed_decimal, trim,
    trim_chars,
};

verus! {

/// How a probe came out.
#[derive(Debug, Clone, Copy, PartialEq, Eq)]
pub enum CheckStatus {
    Pass,
    Warn,
    Fail,
}

impl CheckStatus {
    /// The status as it appears in JSON output.
    pub fn label(&self) -> (s: &'static str)
        ensures
            s@ == match self {
                CheckStatus::Pass => "ok"@,
                CheckStatus::Warn => "warn"@,
                CheckStatus::Fail => "fail"@,
            },
    {
        match self {
            CheckStatus::Pass => "ok",
            CheckStatus::Warn => "warn",
            CheckStatus::Fail => "fail",
        }
    }

    /// The status as it appears in the human-readable report.
    pub fn icon(&self) -> (s: &'static str)
        ensures
            s@ == match self {
                CheckStatus::Pass => "OK"@,
                CheckStatus::Warn => "WARN"@,
                CheckStatus::Fail => "FAIL"@,
            },
    {
        match self {
            CheckStatus::Pass => "OK",
            CheckStatus::Warn => "WARN",
            CheckStatus::Fail => "FAIL",
        }
    }
}

/// One line of the report.
#[derive(Debug, Clone)]
pub struct Check {
    pub name: String,
    pub status: CheckStatus,
    pub detail: String,
}

/// A report line as the reader sees it: its name, status and detail.
pub type LineView = (Seq<char>, CheckStatus, Seq<char>);

impl View for Check {
    type V = LineView;

    open spec fn view(&self) -> LineView {
        (self.name@, self.status, self.detail@)
    }
}

fn check(name: &str, status: CheckStatus, detail: String) -> (c: Check)
    ensures
        c.name@ == name@,
        c.status == status,
        c.detail == detail,
{
    Check { name: String::from_str(name), status, detail }
}

/// The text of an optional string, or `fallback`.
pub open spec fn or_text(s: Option<Seq<char>>, fallback: Seq<char>) -> Seq<char> {
    match s {
        Some(t) => t,
        None => fallback,
    }
}

fn append_or(out: &mut String, s: Option<&str>, fallback: &str)
    ensures
        final(out)@ == old(out)@ + or_text(opt_str_view(s), fallback@),
{
    match s {
        Some(t) => out.append(t),
        None => out.append(fallback),
    }
}

// ---------------------------------------------------------------------------
// Persisted state and safety settings
// ---------------------------------------------------------------------------

/// The state-file line: always fine, showing the path.
pub open spec fn state_file_line(path: Seq<char>) -> LineView {
    ("State file"@, CheckStatus::Pass, path)
}

/// The persisted state file: reported with its path.
pub fn state_file_check(path: &str) -> (c: Check)
    ensures
        c@ == state_file_line(path@),
{
    check("State file", CheckStatus::Pass, String::from_str(path))
}

/// What the persisted authentication-recovery state holds.
pub struct RecoveryState<'a> {
    pub consecutive_failures: u64,
    pub last_failure_kind: Option<&'a str>,
    pub auth_cooldown_remaining_secs: Option<u64>,
    pub cooldown_until: Option<&'a str>,
    pub last_success_transport: Option<&'a str>,
    pub last_recovery_source: Option<&'a str>,
}

pub open spec fn recovery_detail(r: RecoveryState) -> Seq<char> {
    "failures="@ + decimal(r.consecutive_failures as nat) + ", last_failure="@ + or_text(
        opt_str_view(r.last_failure_kind),
        "none"@,
    ) + ", auth_cooldown="@ + remaining_spec(
        r.auth_cooldown_remaining_secs,
        opt_str_view(r.cooldown_until),
    ) + ", last_success="@ + or_text(opt_str_view(r.last_success_transport), "never"@) + " via "@
        + or_text(opt_str_view(r.last_recovery_source), "none"@)
}

/// The recovery line: a warning while a cooldown runs or after a failure.
pub open spec fn recovery_line(r: RecoveryState) -> LineView {
    (
        "Auth recovery state"@,
        if r.auth_cooldown_remaining_secs.is_some() || r.consecutive_failures > 0 {
            CheckStatus::Warn
        } else {
            CheckStatus::Pass
        },
        recovery_detail(r),
    )
}

/// The authentication-recovery state: a warning while a cooldown runs or
/// after a failure.
pub fn recovery_check(r: &RecoveryState) -> (c: Check)
    ensures
        c@ == recovery_line(*r),
{
    let status = if r.auth_cooldown_remaining_secs.is_some() || r.consecutive_failures > 0 {
        CheckStatus::Warn
    } else {
        CheckStatus::Pass
    };
    let mut d = String::from_str("failures=");
    push_decimal(&mut d, r.consecutive_failures);
    d.append(", last_failure=");
    append_or(&mut d, r.last_failure_kind, "none");
    d.append(", auth_cooldown=");
    let cooldown = format_remaining(r.auth_cooldown_remaining_secs, r.cooldown_until);
    d.append(cooldown.as_str());
    d.append(", last_success=");
    append_or(&mut d, r.last_success_transport, "never");
    d.append(" via ");
    append_or(&mut d, r.last_recovery_source, "none");
    check("Auth recovery state", status, d)
}

pub open spec fn safety_detail(s: SafetyConfig, last_guard: Option<Seq<char>>) -> Seq<char> {
    "send="@ + decimal(s.min_unattended_send_interval_secs.unwrap_or(10) as nat) + "s, hook="@
        + decimal(s.min_hook_interval_secs.unwrap_or(2) as nat) + "s, webhook="@ + decimal(
        s.min_webhook_interval_secs.unwrap_or(2) as nat,
    ) + "s, hook_timeout="@ + decimal(s.hook_timeout_secs.unwrap_or(20) as nat)
        + "s, webhook_timeout="@ + decimal(s.webhook_timeout_secs.unwrap_or(10) as nat)
        + "s, insecure_webhooks="@ + (if s.allow_insecure_webhooks {
        "allowed"@
    } else {
        "blocked"@
    }) + ", last_guard="@ + or_text(last_guard, "none"@)
}

/// The safety line: a warning when a guard has fired.
pub open spec fn safety_line(s: SafetyConfig, last_guard: Option<Seq<char>>) -> LineView {
    (
        "Safety guards"@,
        if last_guard.is_some() {
            CheckStatus::Warn
        } else {
            CheckStatus::Pass
        },
        safety_detail(s, last_guard),
    )
}

/// The safety guards in force: a warning when a guard has fired.
pub fn safety_check(s: &SafetyConfig, last_guard_reason: Option<&str>) -> (c: Check)
    ensures
        c@ == safety_line(*s, opt_str_view(last_guard_reason)),
{
    let status = if last_guard_reason.is_some() {
        CheckStatus::Warn
    } else {
        CheckStatus::Pass
    };
    let mut d = String::from_str("send=");
    push_decimal(&mut d, s.min_unattended_send_interval());
    d.append("s, hook=");
    push_decimal(&mut d, s.min_hook_interval());
    d.append("s, webhook=");
    push_decimal(&mut d, s.min_webhook_interval());
    d.append("s, hook_timeout=");
    push_decimal(&mut d, s.hook_timeout());
    d.append("s, webhook_timeout=");
    push_decimal(&mut d, s.webhook_timeout());
    d.append("s, insecure_webhooks=");
    d.append(
        if s.allow_insecure_webhooks {
            "allowed"
        } else {
            "blocked"
        },
    );
    d.append(", last_guard=");
    append_or(&mut d, last_guard_reason, "none");
    check("Safety guards", status, d)
}

// ---------------------------------------------------------------------------
// The installed app and its process
// ---------------------------------------------------------------------------

/// What reading the installed app's `Info.plist` gave.
pub enum AppBundleProbe {
    /// No `KakaoTalk.app` in `/Applications`.
    NotInstalled,
    /// The app is there but its `Info.plist` could not be read; the error.
    Unreadable(String),
    /// The app's short version string and bundle identifier, where present.
    Read { version: Option<String>, bundle_id: Option<String> },
}

pub open spec fn owned_view(s: Option<String>) -> Option<Seq<char>> {
    match s {
        Some(t) => Some(t@),
        None => None,
    }
}

fn append_owned_or(out: &mut String, s: &Option<String>, fallback: &str)
    ensures
        final(out)@ == old(out)@ + or_text(owned_view(*s), fallback@),
{
    match s {
        Some(t) => out.append(t.as_str()),
        None => out.append(fallback),
    }
}

/// The app line.
pub open spec fn app_bundle_line(p: AppBundleProbe) -> LineView {
    (
        "KakaoTalk.app"@,
        match p {
            AppBundleProbe::NotInstalled => CheckStatus::Fail,
            AppBundleProbe::Unreadable(_) => CheckStatus::Warn,
            AppBundleProbe::Read { .. } => CheckStatus::Pass,
        },
        match p {
            AppBundleProbe::NotInstalled => "Not found in /Applications"@,
            AppBundleProbe::Unreadable(e) => "Installed but cannot read Info.plist: "@ + e@,
            AppBundleProbe::Read { version, bundle_id } => "v"@ + or_text(
                owned_view(version),
                "unknown"@,
            ) + " ("@ + or_text(owned_view(bundle_id), "unknown"@) + ")"@,
        },
    )
}

/// The installed app: its version and bundle id, a warning when its
/// `Info.plist` is unreadable, a failure when it is not installed.
pub fn app_bundle_check(p: &AppBundleProbe) -> (c: Check)
    ensures
        c@ == app_bundle_line(*p),
{
    match p {
        AppBundleProbe::NotInstalled => check(
            "KakaoTalk.app",
            CheckStatus::Fail,
            String::from_str("Not found in /Applications"),
        ),
        AppBundleProbe::Unreadable(e) => {
            let mut d = String::from_str("Installed but cannot read Info.plist: ");
            d.append(e.as_str());
            check("KakaoTalk.app", CheckStatus::Warn, d)
        },
        AppBundleProbe::Read { version, bundle_id } => {
            let mut d = String::from_str("v");
            append_owned_or(&mut d, version, "unknown");
            d.append(" (");
            append_owned_or(&mut d, bundle_id, "unknown");
            d.append(")");
            check("KakaoTalk.app", CheckStatus::Pass, d)
        },
    }
}

/// The text stored under a key, when the value there is a string.
pub open spec fn text_value(v: Option<PlistValueView>) -> Option<Seq<char>> {
    match v {
        Some(PlistValueView::Text(s)) => Some(s),
        _ => None,
    }
}

fn text_of(v: Option<&PlistValue>) -> (r: Option<String>)
    ensures
        owned_view(r) == text_value(
            match v {
                Some(x) => Some(x@),
                None => None,
            },
        ),
{
    match v {
        Some(PlistValue::Text(s)) => Some(s.clone()),
        _ => None,
    }
}

/// What the bytes of the app's `Info.plist` say: its short version string
/// and bundle identifier where they are strings, or the parser's error.
pub fn app_bundle_from_plist_bytes(bytes: &[u8]) -> (p: AppBundleProbe)
    ensures
        match plist_parse(bytes@) {
            Ok(es) => match p {
                AppBundleProbe::Read { version, bundle_id } => owned_view(version) == text_value(
                    lookup(es, "CFBundleShortVersionString"@),
                ) && owned_view(bundle_id) == text_value(lookup(es, "CFBundleIdentifier"@)),
                _ => false,
            },
            Err(e) => match p {
                AppBundleProbe::Unreadable(m) => m@ == e,
                _ => false,
            },
        },
{
    match parse_plist_entries(bytes) {
        Ok(es) => {
            let version = text_of(lookup_entry(es.as_slice(), "CFBundleShortVersionString"));
            let bundle_id = text_of(lookup_entry(es.as_slice(), "CFBundleIdentifier"));
            AppBundleProbe::Read { version, bundle_id }
        },
        Err(e) => AppBundleProbe::Unreadable(e),
    }
}

/// The installed app's version, as compared with the saved credentials'.
pub fn installed_version(p: &AppBundleProbe) -> (v: Option<String>)
    ensures
        owned_view(v) == installed_version_spec(*p),
{
    match p {
        AppBundleProbe::Read { version, .. } => {
            let mut s = String::new();
            append_owned_or(&mut s, version, "unknown");
            Some(s)
        },
        _ => None,
    }
}

/// `s` with every newline replaced by `", "`.
pub open spec fn newlines_to_commas(s: Seq<char>) -> Seq<char>
    decreases s.len(),
{
    if s.len() == 0 {
        seq![]
    } else {
        newlines_to_commas(s.drop_last()) + if s.last() == '\n' {
            ", "@
        } else {
            seq![s.last()]
        }
    }
}

/// The process line.
pub open spec fn process_line(pgrep_stdout: Option<Seq<char>>) -> LineView {
    match pgrep_stdout {
        Some(out) => (
            "KakaoTalk process"@,
            CheckStatus::Pass,
            "Running (PID: "@ + newlines_to_commas(trim(out)) + ")"@,
        ),
        None => (
            "KakaoTalk process"@,
            CheckStatus::Warn,
            "Not running. Start KakaoTalk to refresh tokens."@,
        ),
    }
}

/// The running process: the process ids that `pgrep` printed (trimmed, one
/// per line, shown comma-separated), or a warning when it found none.
pub fn process_check(pgrep_stdout: Option<&str>) -> (c: Check)
    ensures
        c@ == process_line(opt_str_view(pgrep_stdout)),
{
    match pgrep_stdout {
        Some(out) => {
            let chars = chars_of(out);
            let pids = trim_chars(chars.as_slice());
            let mut d = String::from_str("Running (PID: ");
            let ghost start = d@;
            let mut i: usize = 0;
            while i < pids.len()
                invariant
                    i <= pids@.len(),
                    d@ == start + newlines_to_commas(pids@.take(i as int)),
                decreases pids@.len() - i,
            {
                assert(pids@.take(i + 1).drop_last() == pids@.take(i as int));
                if pids[i] == '\n' {
                    d.append(", ");
                } else {
                    d.push(pids[i]);
                }
                i = i + 1;
            }
            assert(pids@.take(pids@.len() as int) == pids@);
            d.append(")");
            check("KakaoTalk process", CheckStatus::Pass, d)
        },
        None => check(
            "KakaoTalk process",
            CheckStatus::Warn,
            String::from_str("Not running. Start KakaoTalk to refresh tokens."),
        ),
    }
}

// ---------------------------------------------------------------------------
// The cache database
// ---------------------------------------------------------------------------

/// How long ago something happened, in the largest whole unit:
/// seconds under a minute, minutes under an hour, hours under a day, else days.
pub open spec fn age_label(secs: nat) -> Seq<char> {
    if secs < 60 {
        decimal(secs) + "s ago"@
    } else if secs < 3600 {
        decimal(secs / 60) + "m ago"@
    } else if secs < 86400 {
        decimal(secs / 3600) + "h ago"@
    } else {
        decimal(secs / 86400) + "d ago"@
    }
}

/// How long ago something happened, e.g. `"42s ago"`, `"3h ago"`.
pub fn format_age(secs: u64) -> (s: String)
    ensures
        s@ == age_label(secs as nat),
{
    let mut s = String::new();
    if secs < 60 {
        push_decimal(&mut s, secs);
        s.append("s ago");
    } else if secs < 3600 {
        push_decimal(&mut s, secs / 60);
        s.append("m ago");
    } else if secs < 86400 {
        push_decimal(&mut s, secs / 3600);
        s.append("h ago");
    } else {
        push_decimal(&mut s, secs / 86400);
        s.append("d ago");
    }
    s
}

/// What looking at the app's `Cache.db` gave.
pub enum CacheDbProbe {
    /// There is no `Cache.db`.
    Missing,
    /// It exists but its metadata could not be read; the error.
    Unreadable(String),
    /// Its size in bytes and, where known, the seconds since it changed.
    Found { size_bytes: u64, age_secs: Option<u64> },
}

/// The cache line: stale after a day.
pub open spec fn cache_db_line(p: CacheDbProbe) -> LineView {
    match p {
        CacheDbProbe::Missing => (
            "Cache.db"@,
            CheckStatus::Fail,
            "Not found. Has KakaoTalk been used on this Mac?"@,
        ),
        CacheDbProbe::Unreadable(e) => ("Cache.db"@, CheckStatus::Warn, "Exists but unreadable: "@ + e@),
        CacheDbProbe::Found { size_bytes, age_secs } => (
            "Cache.db"@,
            match age_secs {
                Some(a) => if a > 86400 {
                    CheckStatus::Warn
                } else {
                    CheckStatus::Pass
                },
                None => CheckStatus::Pass,
            },
            decimal((size_bytes / 1024) as nat) + "KB, modified "@ + match age_secs {
                Some(a) => age_label(a as nat),
                None => "unknown"@,
            },
        ),
    }
}

/// The cache database: its size and age, a warning when it is unreadable or
/// older than a day, a failure when it is missing.
pub fn cache_db_check(p: &CacheDbProbe) -> (c: Check)
    ensures
        c@ == cache_db_line(*p),
        match p {
            CacheDbProbe::Found { age_secs: Some(a), .. } => c.status == CheckStatus::Warn <==> *a
                > 86400,
            CacheDbProbe::Found { age_secs: None, .. } => c.status == CheckStatus::Pass,
            _ => true,
        },
{
    match p {
        CacheDbProbe::Missing => check(
            "Cache.db",
            CheckStatus::Fail,
            String::from_str("Not found. Has KakaoTalk been used on this Mac?"),
        ),
        CacheDbProbe::Unreadable(e) => {
            let mut d = String::from_str("Exists but unreadable: ");
            d.append(e.as_str());
            check("Cache.db", CheckStatus::Warn, d)
        },
        CacheDbProbe::Found { size_bytes, age_secs } => {
            let mut d = String::new();
            push_decimal(&mut d, *size_bytes / 1024);
            d.append("KB, modified ");
            let status = match age_secs {
                Some(a) => {
                    let label = format_age(*a);
                    d.append(label.as_str());
                    if *a > 86400 {
                        CheckStatus::Warn
                    } else {
                        CheckStatus::Pass
                    }
                },
                None => {
                    d.append("unknown");
                    CheckStatus::Pass
                },
            };
            check("Cache.db", status, d)
        },
    }
}

// ---------------------------------------------------------------------------
// Credentials and the server
// ---------------------------------------------------------------------------

/// What looking for saved credentials gave.
pub enum SavedCredentialsProbe {
    /// Credentials loaded: the user id, app version and token.
    Loaded { user_id: i64, app_version: String, oauth_token: String },
    /// The file exists but holds nothing usable.
    Empty,
    /// The file could not be parsed; the error.
    ParseError(String),
    /// No file at the expected path, which is given.
    NotFound(String),
    /// The path could not be determined; the error.
    NoPath(String),
}

/// `Cache.db` turns stale only after a day: a cache modified at most 86400
/// seconds ago passes, an older one is a warning, one of unknown age passes;
/// and the age never changes the size shown in kilobytes.
pub proof fn lemma_cache_db_stale_after_a_day(size_bytes: u64, age_secs: Option<u64>)
    ensures
        cache_db_line(CacheDbProbe::Found { size_bytes, age_secs }).1 == (match age_secs {
            Some(a) => if a <= 86400 {
                CheckStatus::Pass
            } else {
                CheckStatus::Warn
            },
            None => CheckStatus::Pass,
        }),
        cache_db_line(CacheDbProbe::Found { size_bytes, age_secs }).2.take(
            decimal((size_bytes / 1024) as nat).len() as int,
        ) == decimal((size_bytes / 1024) as nat),
{
    let p = CacheDbProbe::Found { size_bytes, age_secs };
    let d = decimal((size_bytes / 1024) as nat);
    assert(cache_db_line(p).2.take(d.len() as int) =~= d);
}

/// The saved-credentials line; it shows only the token's first characters.
pub open spec fn saved_credentials_line(p: SavedCredentialsProbe) -> LineView {
    match p {
        SavedCredentialsProbe::Loaded { user_id, app_version, oauth_token } => (
            "Saved credentials"@,
            CheckStatus::Pass,
            "user_id="@ + signed_decimal(user_id as int) + ", version="@ + app_version@
                + ", token="@ + token_prefix_spec(oauth_token@) + "..."@,
        ),
        SavedCredentialsProbe::Empty => (
            "Saved credentials"@,
            CheckStatus::Warn,
            "File exists but empty/invalid"@,
        ),
        SavedCredentialsProbe::ParseError(e) => (
            "Saved credentials"@,
            CheckStatus::Warn,
            "Parse error: "@ + e@,
        ),
        SavedCredentialsProbe::NotFound(path) => (
            "Saved credentials"@,
            CheckStatus::Warn,
            "Not found. Run 'openkakao-cli login --save'. ("@ + path@ + ")"@,
        ),
        SavedCredentialsProbe::NoPath(e) => (
            "Saved credentials"@,
            CheckStatus::Fail,
            "Cannot determine path: "@ + e@,
        ),
    }
}

/// The saved credentials: user id, version and the shown part of the token;
/// a warning when missing or unusable, a failure when there is no path.
pub fn saved_credentials_check(p: &SavedCredentialsProbe) -> (c: Check)
    ensures
        c@ == saved_credentials_line(*p),
{
    match p {
        SavedCredentialsProbe::Loaded { user_id, app_version, oauth_token } => {
            let mut d = String::from_str("user_id=");
            push_signed_decimal(&mut d, *user_id);
            d.append(", version=");
            d.append(app_version.as_str());
            d.append(", token=");
            let head = token_prefix(oauth_token.as_str());
            d.append(head.as_str());
            d.append("...");
            check("Saved credentials", CheckStatus::Pass, d)
        },
        SavedCredentialsProbe::Empty => check(
            "Saved credentials",
            CheckStatus::Warn,
            String::from_str("File exists but empty/invalid"),
        ),
        SavedCredentialsProbe::ParseError(e) => {
            let mut d = String::from_str("Parse error: ");
            d.append(e.as_str());
            check("Saved credentials", CheckStatus::Warn, d)
        },
        SavedCredentialsProbe::NotFound(path) => {
            let mut d = String::from_str("Not found. Run 'openkakao-cli login --save'. (");
            d.append(path.as_str());
            d.append(")");
            check("Saved credentials", CheckStatus::Warn, d)
        },
        SavedCredentialsProbe::NoPath(e) => {
            let mut d = String::from_str("Cannot determine path: ");
            d.append(e.as_str());
            check("Saved credentials", CheckStatus::Fail, d)
        },
    }
}

/// The saved credentials' app version, as compared with the installed one.
pub fn saved_version(p: &SavedCredentialsProbe) -> (v: Option<String>)
    ensures
        owned_view(v) == saved_version_spec(*p),
{
    match p {
        SavedCredentialsProbe::Loaded { app_version, .. } => Some(app_version.clone()),
        _ => None,
    }
}

/// The version line: present only when both versions are known.
pub open spec fn version_line(installed: Option<Seq<char>>, saved: Option<Seq<char>>) -> Option<
    LineView,
> {
    match (installed, saved) {
        (Some(i), Some(s)) => if i == s {
            Some(("Version match"@, CheckStatus::Pass, "Installed and saved both v"@ + i))
        } else {
            Some(
                (
                    "Version drift"@,
                    CheckStatus::Warn,
                    "Installed v"@ + i + " != saved v"@ + s
                        + ". Run `relogin --fresh-xvc` to re-authenticate."@,
                ),
            )
        },
        _ => None,
    }
}

/// Whether the installed app and the saved credentials agree on the
/// version; nothing to report unless both are known.
pub fn version_check(installed: Option<&str>, saved: Option<&str>) -> (c: Option<Check>)
    ensures
        match c {
            Some(ch) => version_line(opt_str_view(installed), opt_str_view(saved)) == Some(ch@),
            None => version_line(opt_str_view(installed), opt_str_view(saved)) is None,
        },
{
    match (installed, saved) {
        (Some(i), Some(s)) => {
            let a = chars_of(i);
            let b = chars_of(s);
            if crate::text::chars_equal(a.as_slice(), b.as_slice()) {
                let mut d = String::from_str("Installed and saved both v");
                d.append(i);
                Some(check("Version match", CheckStatus::Pass, d))
            } else {
                let mut d = String::from_str("Installed v");
                d.append(i);
                d.append(" != saved v");
                d.append(s);
                d.append(". Run `relogin --fresh-xvc` to re-authenticate.");
                Some(check("Version drift", CheckStatus::Warn, d))
            }
        },
        _ => None,
    }
}

/// What checking the token against the REST API gave.
pub enum TokenProbe {
    /// The token is valid; the user id it belongs to.
    Valid(i64),
    /// The server rejected the token.
    Rejected,
    /// The request failed; the error.
    RequestFailed(String),
    /// The client could not be set up; the error.
    ClientInitFailed(String),
    /// No credentials were found; the error.
    NoCredentials(String),
}

/// The REST token line.
pub open spec fn rest_token_line(p: TokenProbe) -> LineView {
    match p {
        TokenProbe::Valid(id) => (
            "REST API token"@,
            CheckStatus::Pass,
            "Valid (user_id="@ + signed_decimal(id as int) + ")"@,
        ),
        TokenProbe::Rejected => (
            "REST API token"@,
            CheckStatus::Fail,
            "Token rejected. Open KakaoTalk, browse chats, then re-login."@,
        ),
        TokenProbe::RequestFailed(e) => ("REST API token"@, CheckStatus::Fail, "Request failed: "@ + e@),
        TokenProbe::ClientInitFailed(e) => (
            "REST API token"@,
            CheckStatus::Fail,
            "Client init failed: "@ + e@,
        ),
        TokenProbe::NoCredentials(e) => ("REST API token"@, CheckStatus::Fail, "No credentials: "@ + e@),
    }
}

/// The token's standing with the REST API: a failure unless it is valid.
pub fn rest_token_check(p: &TokenProbe) -> (c: Check)
    ensures
        c@ == rest_token_line(*p),
{
    match p {
        TokenProbe::Valid(id) => {
            let mut d = String::from_str("Valid (user_id=");
            push_signed_decimal(&mut d, *id);
            d.append(")");
            check("REST API token", CheckStatus::Pass, d)
        },
        TokenProbe::Rejected => check(
            "REST API token",
            CheckStatus::Fail,
            String::from_str("Token rejected. Open KakaoTalk, browse chats, then re-login."),
        ),
        TokenProbe::RequestFailed(e) => {
            let mut d = String::from_str("Request failed: ");
            d.append(e.as_str());
            check("REST API token", CheckStatus::Fail, d)
        },
        TokenProbe::ClientInitFailed(e) => {
            let mut d = String::from_str("Client init failed: ");
            d.append(e.as_str());
            check("REST API token", CheckStatus::Fail, d)
        },
        TokenProbe::NoCredentials(e) => {
            let mut d = String::from_str("No credentials: ");
            d.append(e.as_str());
            check("REST API token", CheckStatus::Fail, d)
        },
    }
}

/// The items of `list` separated by `sep`.
pub open spec fn join(list: Seq<Seq<char>>, sep: Seq<char>) -> Seq<char>
    decreases list.len(),
{
    if list.len() == 0 {
        seq![]
    } else if list.len() == 1 {
        list[0]
    } else {
        join(list.drop_last(), sep) + sep + list.last()
    }
}

/// The decimal forms of a list of port numbers.
pub open spec fn port_texts(ports: Seq<i32>) -> Seq<Seq<char>> {
    ports.map_values(|p: i32| signed_decimal(p as int))
}

/// What asking the LOCO booking server for its configuration gave.
pub enum BookingProbe {
    /// The server answered: its hosts and ports, each `None` when the answer
    /// lacks that part.
    Answered { hosts: Option<Vec<String>>, ports: Option<Vec<i32>> },
    /// The connection failed; the error.
    Failed(String),
    /// There were no credentials to connect with.
    NoCredentials,
}

fn append_join_strings(out: &mut String, list: &Vec<String>)
    ensures
        final(out)@ == old(out)@ + join(crate::local_db::string_views(list@), ", "@),
{
    let ghost start = out@;
    let ghost l = crate::local_db::string_views(list@);
    let mut i: usize = 0;
    while i < list.len()
        invariant
            i <= list@.len(),
            l == crate::local_db::string_views(list@),
            out@ == start + join(l.take(i as int), ", "@),
        decreases list@.len() - i,
    {
        assert(l.take(i + 1).drop_last() == l.take(i as int));
        if i > 0 {
            out.append(", ");
        } else {
            assert(l.take(0) =~= Seq::<Seq<char>>::empty());
            assert(l.take(1) =~= seq![l[0]]);
        }
        out.append(list[i].as_str());
        i = i + 1;
    }
    assert(l.take(list@.len() as int) == l);
}

fn append_join_ports(out: &mut String, ports: &Vec<i32>)
    ensures
        final(out)@ == old(out)@ + join(port_texts(ports@), ", "@),
{
    let ghost start = out@;
    let ghost l = port_texts(ports@);
    let mut i: usize = 0;
    while i < ports.len()
        invariant
            i <= ports@.len(),
            l == port_texts(ports@),
            out@ == start + join(l.take(i as int), ", "@),
        decreases ports@.len() - i,
    {
        assert(l.take(i + 1).drop_last() == l.take(i as int));
        if i > 0 {
            out.append(", ");
        } else {
            assert(l.take(0) =~= Seq::<Seq<char>>::empty());
            assert(l.take(1) =~= seq![l[0]]);
        }
        push_signed_decimal(out, ports[i] as i64);
        i = i + 1;
    }
    assert(l.take(ports@.len() as int) == l);
}

/// The LOCO booking line.
pub open spec fn loco_booking_line(p: BookingProbe) -> LineView {
    match p {
        BookingProbe::Answered { hosts, ports } => (
            "LOCO booking (GETCONF)"@,
            CheckStatus::Pass,
            "hosts=["@ + match hosts {
                Some(h) => join(crate::local_db::string_views(h@), ", "@),
                None => "none"@,
            } + "], ports=["@ + match ports {
                Some(q) => join(port_texts(q@), ", "@),
                None => "none"@,
            } + "]"@,
        ),
        BookingProbe::Failed(e) => (
            "LOCO booking (GETCONF)"@,
            CheckStatus::Fail,
            "Connection failed: "@ + e@,
        ),
        BookingProbe::NoCredentials => (
            "LOCO booking (GETCONF)"@,
            CheckStatus::Fail,
            "Skipped (no credentials)"@,
        ),
    }
}

/// The LOCO booking server: the hosts and ports it offers (`none` for a
/// missing part), or a failure.
pub fn loco_booking_check(p: &BookingProbe) -> (c: Check)
    ensures
        c@ == loco_booking_line(*p),
{
    match p {
        BookingProbe::Answered { hosts, ports } => {
            let mut d = String::from_str("hosts=[");
            match hosts {
                Some(h) => append_join_strings(&mut d, h),
                None => d.append("none"),
            }
            d.append("], ports=[");
            match ports {
                Some(q) => append_join_ports(&mut d, q),
                None => d.append("none"),
            }
            d.append("]");
            check("LOCO booking (GETCONF)", CheckStatus::Pass, d)
        },
        BookingProbe::Failed(e) => {
            let mut d = String::from_str("Connection failed: ");
            d.append(e.as_str());
            check("LOCO booking (GETCONF)", CheckStatus::Fail, d)
        },
        BookingProbe::NoCredentials => check(
            "LOCO booking (GETCONF)",
            CheckStatus::Fail,
            String::from_str("Skipped (no credentials)"),
        ),
    }
}

// ---------------------------------------------------------------------------
// The local database, write safety and protocol constants
// ---------------------------------------------------------------------------

/// The verdict on the local database, from the first thing that holds:
/// decryptable (ok, with its path); no app container, no platform UUID, no
/// user id (failures); no database file, or a file that would not decrypt
/// (warnings).
pub open spec fn local_db_verdict(st: LocalDbStatus) -> (CheckStatus, Seq<char>) {
    if st.decryptable {
        (CheckStatus::Pass, "Decryptable. Path: "@ + or_text(owned_view(st.db_path), "unknown"@))
    } else if !st.container_exists {
        (CheckStatus::Fail, "KakaoTalk container directory not found"@)
    } else if !st.uuid_available {
        (CheckStatus::Fail, "IOPlatformUUID not available (ioreg failed)"@)
    } else if !st.user_id_available {
        (CheckStatus::Fail, "User ID not found in KakaoTalk preferences"@)
    } else if !st.db_file_found {
        (CheckStatus::Warn, "Database file not found (key derivation may differ)"@)
    } else {
        (
            CheckStatus::Warn,
            "File found but decryption failed. Path: "@ + or_text(owned_view(st.db_path), "unknown"@),
        )
    }
}

/// The local-database line.
pub open spec fn local_db_line(probe: Result<LocalDbStatus, String>) -> LineView {
    match probe {
        Ok(st) => ("Local DB (SQLCipher)"@, local_db_verdict(st).0, local_db_verdict(st).1),
        Err(e) => ("Local DB (SQLCipher)"@, CheckStatus::Warn, "Check failed: "@ + e@),
    }
}

/// How the local-database line is graded: it is fine exactly when the
/// database opens with the derived key; a missing app container, platform
/// UUID or user id is a failure; a database file that is missing or does not
/// open is a warning, and so is a probe that could not run at all.
pub proof fn lemma_local_db_status(probe: Result<LocalDbStatus, String>)
    ensures
        local_db_line(probe).1 == match probe {
            Ok(st) => if st.decryptable {
                CheckStatus::Pass
            } else if !st.container_exists || !st.uuid_available || !st.user_id_available {
                CheckStatus::Fail
            } else {
                CheckStatus::Warn
            },
            Err(_) => CheckStatus::Warn,
        },
        probe matches Ok(st) && !st.decryptable && st.container_exists && !st.uuid_available
            ==> local_db_line(probe).2 == "IOPlatformUUID not available (ioreg failed)"@,
{
}

/// The local database's accessibility; a warning when it could not be
/// probed at all.
pub fn local_db_check(probe: &Result<LocalDbStatus, String>) -> (c: Check)
    ensures
        c@ == local_db_line(*probe),
        match probe {
            Ok(st) => {
                &&& c.status == CheckStatus::Pass <==> st.decryptable
                &&& !st.decryptable ==> (c.status == CheckStatus::Fail <==> (!st.container_exists
                    || !st.uuid_available || !st.user_id_available))
            },
            Err(_) => c.status == CheckStatus::Warn,
        },
{
    match probe {
        Ok(st) => {
            if st.decryptable {
                let mut d = String::from_str("Decryptable. Path: ");
                append_owned_or(&mut d, &st.db_path, "unknown");
                check("Local DB (SQLCipher)", CheckStatus::Pass, d)
            } else if !st.container_exists {
                check(
                    "Local DB (SQLCipher)",
                    CheckStatus::Fail,
                    String::from_str("KakaoTalk container directory not found"),
                )
            } else if !st.uuid_available {
                check(
                    "Local DB (SQLCipher)",
                    CheckStatus::Fail,
                    String::from_str("IOPlatformUUID not available (ioreg failed)"),
                )
            } else if !st.user_id_available {
                check(
                    "Local DB (SQLCipher)",
                    CheckStatus::Fail,
                    String::from_str("User ID not found in KakaoTalk preferences"),
                )
            } else if !st.db_file_found {
                check(
                    "Local DB (SQLCipher)",
                    CheckStatus::Warn,
                    String::from_str("Database file not found (key derivation may differ)"),
                )
            } else {
                let mut d = String::from_str("File found but decryption failed. Path: ");
                append_owned_or(&mut d, &st.db_path, "unknown");
                check("Local DB (SQLCipher)", CheckStatus::Warn, d)
            }
        },
        Err(e) => {
            let mut d = String::from_str("Check failed: ");
            d.append(e.as_str());
            check("Local DB (SQLCipher)", CheckStatus::Warn, d)
        },
    }
}

/// The LOCO-write line: a warning when writes are enabled.
pub open spec fn loco_write_line(allow_loco_write: bool) -> LineView {
    if allow_loco_write {
        (
            "LOCO write operations"@,
            CheckStatus::Warn,
            "ENABLED \u{2014} send/delete/edit/react allowed (account ban risk)"@,
        )
    } else {
        (
            "LOCO write operations"@,
            CheckStatus::Pass,
            "Disabled (safe). Enable with safety.allow_loco_write = true"@,
        )
    }
}

/// LOCO write operations: a warning when they are enabled.
pub fn loco_write_check(allow_loco_write: bool) -> (c: Check)
    ensures
        c@ == loco_write_line(allow_loco_write),
{
    if allow_loco_write {
        check(
            "LOCO write operations",
            CheckStatus::Warn,
            String::from_str("ENABLED \u{2014} send/delete/edit/react allowed (account ban risk)"),
        )
    } else {
        check(
            "LOCO write operations",
            CheckStatus::Pass,
            String::from_str("Disabled (safe). Enable with safety.allow_loco_write = true"),
        )
    }
}

/// The protocol-constants line.
pub open spec fn protocol_constants_line() -> LineView {
    (
        "Protocol constants"@,
        CheckStatus::Pass,
        "handshake_key_type=16, encrypt_type=3 (AES-128-GCM), RSA=2048-bit e=3, booking=booking-loco.kakao.com:443"@,
    )
}

/// The protocol constants in use.
pub fn protocol_constants_check() -> (c: Check)
    ensures
        c@ == protocol_constants_line(),
{
    check(
        "Protocol constants",
        CheckStatus::Pass,
        String::from_str(
            "handshake_key_type=16, encrypt_type=3 (AES-128-GCM), RSA=2048-bit e=3, booking=booking-loco.kakao.com:443",
        ),
    )
}

// ---------------------------------------------------------------------------
// The report
// ---------------------------------------------------------------------------

/// What `doctor` learned, one probe per check. `booking` is there only when
/// LOCO connectivity was asked for.
pub struct DoctorProbes<'a> {
    pub state_path: &'a str,
    pub recovery: RecoveryState<'a>,
    pub last_guard_reason: Option<&'a str>,
    pub app: AppBundleProbe,
    pub pgrep_stdout: Option<&'a str>,
    pub cache_db: CacheDbProbe,
    pub saved_credentials: SavedCredentialsProbe,
    pub rest_token: TokenProbe,
    pub booking: Option<BookingProbe>,
    pub local_db: Result<LocalDbStatus, String>,
}

/// The lines of a list of checks.
pub open spec fn check_lines(cs: Seq<Check>) -> Seq<LineView> {
    cs.map_values(|c: Check| c@)
}

/// The installed app's version as `doctor` compares it: `unknown` where its
/// `Info.plist` has none; nothing when the app could not be read.
pub open spec fn installed_version_spec(app: AppBundleProbe) -> Option<Seq<char>> {
    match app {
        AppBundleProbe::Read { version, .. } => Some(or_text(owned_view(version), "unknown"@)),
        _ => None,
    }
}

/// The saved credentials' app version, when they were loaded.
pub open spec fn saved_version_spec(creds: SavedCredentialsProbe) -> Option<Seq<char>> {
    match creds {
        SavedCredentialsProbe::Loaded { app_version, .. } => Some(app_version@),
        _ => None,
    }
}

/// An optional line as a list of zero or one lines.
pub open spec fn optional_line(l: Option<LineView>) -> Seq<LineView> {
    match l {
        Some(x) => seq![x],
        None => seq![],
    }
}

/// The report of `doctor`, line by line and in order: each line as its own
/// check gives it, the version line only when both versions are known, the
/// LOCO booking line only when it was probed.
pub open spec fn report_lines(p: DoctorProbes, safety: SafetyConfig) -> Seq<LineView> {
    seq![
        state_file_line(p.state_path@),
        recovery_line(p.recovery),
        safety_line(safety, opt_str_view(p.last_guard_reason)),
        app_bundle_line(p.app),
        process_line(opt_str_view(p.pgrep_stdout)),
        cache_db_line(p.cache_db),
        saved_credentials_line(p.saved_credentials),
    ] + optional_line(
        version_line(installed_version_spec(p.app), saved_version_spec(p.saved_credentials)),
    ) + seq![rest_token_line(p.rest_token)] + optional_line(
        match p.booking {
            Some(b) => Some(loco_booking_line(b)),
            None => None,
        },
    ) + seq![
        local_db_line(p.local_db),
        loco_write_line(safety.allow_loco_write),
        protocol_constants_line(),
    ]
}

fn opt_as_str(s: &Option<String>) -> (r: Option<&str>)
    ensures
        opt_str_view(r) == owned_view(*s),
{
    match s {
        Some(t) => Some(t.as_str()),
        None => None,
    }
}

/// The checks of `doctor`, in the order it reports them: the version line
/// only when both versions are known, the LOCO booking line only when it
/// was probed.
pub fn doctor_checks(p: &DoctorProbes, safety: &SafetyConfig) -> (r: Vec<Check>)
    ensures
        check_lines(r@) == report_lines(*p, *safety),
{
    let mut r: Vec<Check> = Vec::new();
    r.push(state_file_check(p.state_path));
    r.push(recovery_check(&p.recovery));
    r.push(safety_check(safety, p.last_guard_reason));
    r.push(app_bundle_check(&p.app));
    r.push(process_check(p.pgrep_stdout));
    r.push(cache_db_check(&p.cache_db));
    r.push(saved_credentials_check(&p.saved_credentials));
    let installed = installed_version(&p.app);
    let saved = saved_version(&p.saved_credentials);
    let ghost before = r@;
    match version_check(opt_as_str(&installed), opt_as_str(&saved)) {
        Some(c) => r.push(c),
        None => {},
    }
    assert(check_lines(r@) =~= check_lines(before) + optional_line(
        version_line(installed_version_spec(p.app), saved_version_spec(p.saved_credentials)),
    ));
    r.push(rest_token_check(&p.rest_token));
    let ghost before = r@;
    match &p.booking {
        Some(b) => r.push(loco_booking_check(b)),
        None => {},
    }
    assert(check_lines(r@) =~= check_lines(before) + optional_line(
        match p.booking {
            Some(b) => Some(loco_booking_line(b)),
            None => None,
        },
    ));
    r.push(local_db_check(&p.local_db));
    r.push(loco_write_check(safety.loco_write_permitted()));
    r.push(protocol_constants_check());
    assert(check_lines(r@) =~= report_lines(*p, *safety));
    r
}

} // verus!
